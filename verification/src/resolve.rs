//! How the global `kamui.toml` and an optional project `kamui.toml` make up a configuration.
//!
//! The project file may override what is neither secret nor grants anything: the model, the
//! context window, the base URL, the default profile, limits, prices and the theme. A project file
//! that holds a key, launches servers, allows commands or defines profiles is refused.
use crate::config::{
    Config, ConfigError, ConfigFile, ConfigModel, Loaded, McpSection, McpServer, McpServerModel,
    ModelPrice, Prices, PricesModel, PricingSection, Profile, ProfileModel, ProfileSection,
    ProviderSection, Theme, DEFAULT_BACKGROUND_MAX_SECS, DEFAULT_BASE_URL,
    DEFAULT_COMMAND_TIMEOUT_SECS, DEFAULT_PROFILE_NAME,
};
use crate::config;
use crate::order;
use crate::scan;
use crate::scan::{is_blank, same_ignoring_case};
use crate::table;
use crate::table::Table;
use crate::text;
use crate::text::{copy_opt, same};
use vstd::prelude::*;
use vstd::string::*;

verus! {

broadcast use crate::text::group_views;

/// What went wrong, in a contract.
pub type Fault = ConfigError<Seq<char>>;

// ---------------------------------------------------------------------------------------------
// Layers
// ---------------------------------------------------------------------------------------------

/// The first of two that is there.
pub open spec fn or<T>(a: Option<T>, b: Option<T>) -> Option<T> {
    match a {
        Some(x) => Some(x),
        None => b,
    }
}

/// What is there, or else a value to fall back on.
pub open spec fn or_value<T>(a: Option<T>, b: T) -> T {
    match a {
        Some(x) => x,
        None => b,
    }
}

/// A copy of the first of two texts that is there.
fn pick(a: &Option<String>, b: &Option<String>) -> (r: Option<String>)
    ensures
        text::opt_view(r) == or(text::opt_view(*a), text::opt_view(*b)),
{
    match a {
        Some(x) => Some(x.clone()),
        None => copy_opt(b),
    }
}

/// The first of two that is there.
fn either<T: Copy>(a: Option<T>, b: Option<T>) -> (r: Option<T>)
    ensures
        r == or(a, b),
{
    match a {
        Some(x) => Some(x),
        None => b,
    }
}

/// What is there, or else a value to fall back on.
fn otherwise<T: Copy>(a: Option<T>, b: T) -> (r: T)
    ensures
        r == or_value(a, b),
{
    match a {
        Some(x) => x,
        None => b,
    }
}

/// What is there, or else a text to fall back on.
fn text_or(a: Option<String>, b: &str) -> (r: String)
    ensures
        r@ == or_value(text::opt_view(a), b@),
{
    match a {
        Some(x) => x,
        None => b.to_owned(),
    }
}

/// A key that is more than white space.
pub open spec fn usable(key: Option<Seq<char>>) -> Option<Seq<char>> {
    match key {
        Some(k) => if scan::blank(k) {
            None
        } else {
            Some(k)
        },
        None => None,
    }
}

/// A key that is more than white space.
fn keep_usable(key: Option<String>) -> (r: Option<String>)
    ensures
        text::opt_view(r) == usable(text::opt_view(key)),
{
    match key {
        Some(k) => if is_blank(k.as_str()) {
            None
        } else {
            Some(k)
        },
        None => None,
    }
}

/// A provider section that says nothing.
pub open spec fn silent() -> ProviderSection {
    ProviderSection {
        base_url: None,
        api_key: None,
        tools: None,
        embedding_model: None,
        completions_path: None,
        send_session_id: None,
    }
}

fn silent_section() -> (r: ProviderSection)
    ensures
        r == silent(),
{
    ProviderSection {
        base_url: None,
        api_key: None,
        tools: None,
        embedding_model: None,
        completions_path: None,
        send_session_id: None,
    }
}

/// The `[provider]` section of a file, silent where there is none.
pub open spec fn provider_in(file: Option<ConfigFile>) -> ProviderSection {
    match file {
        Some(f) => or_value(f.provider, silent()),
        None => silent(),
    }
}

/// The model that a file names.
pub open spec fn model_in(file: Option<ConfigFile>) -> Option<Seq<char>> {
    match file {
        Some(f) => text::opt_view(f.model),
        None => None,
    }
}

// ---------------------------------------------------------------------------------------------
// Setup and refusals
// ---------------------------------------------------------------------------------------------

/// There is a key and it is more than white space.
pub open spec fn filled(key: Option<String>) -> bool {
    usable(text::opt_view(key)) is Some
}

fn is_filled(key: &Option<String>) -> (r: bool)
    ensures
        r == filled(*key),
{
    match key {
        Some(k) => !is_blank(k.as_str()),
        None => false,
    }
}

/// Some provider satisfies `p`.
pub open spec fn any_provider(t: Table<ProviderSection>, p: spec_fn(ProviderSection) -> bool) -> bool {
    exists|i: int| 0 <= i < t.entries@.len() && p((#[trigger] t.entries@[i]).1)
}

/// Some profile satisfies `p`.
pub open spec fn any_profile(t: Table<ProfileSection>, p: spec_fn(ProfileSection) -> bool) -> bool {
    exists|i: int| 0 <= i < t.entries@.len() && p((#[trigger] t.entries@[i]).1)
}

/// The files hold enough to start with: in the flat form a model and a key, and with profiles a
/// key on a profile or on a shared provider.
pub open spec fn usable_configuration(file: ConfigFile, project: Option<ConfigFile>) -> bool {
    if file.profiles.entries@.len() == 0 {
        &&& filled(file.model) || (project matches Some(p) && filled(p.model))
        &&& file.provider matches Some(p) && filled(p.api_key)
    } else {
        ||| any_provider(file.providers, |p: ProviderSection| filled(p.api_key))
        ||| any_profile(file.profiles, |p: ProfileSection| filled(p.api_key))
    }
}

/// Whether the files hold enough to start with.
pub fn has_usable_configuration(file: &ConfigFile, project: Option<&ConfigFile>) -> (r: bool)
    ensures
        r == usable_configuration(
            *file,
            match project {
                Some(p) => Some(*p),
                None => None,
            },
        ),
{
    if file.profiles.is_empty() {
        let named = is_filled(&file.model) || match project {
            Some(p) => is_filled(&p.model),
            None => false,
        };
        named && match &file.provider {
            Some(p) => is_filled(&p.api_key),
            None => false,
        }
    } else {
        let mut i: usize = 0;
        while i < file.providers.entries.len()
            invariant
                i <= file.providers.entries.len(),
                file.profiles.entries@.len() > 0,
                forall|j: int|
                    0 <= j < i ==> !filled((#[trigger] file.providers.entries@[j]).1.api_key),
            decreases file.providers.entries.len() - i,
        {
            if is_filled(&file.providers.entries[i].1.api_key) {
                assert(filled(file.providers.entries@[i as int].1.api_key));
                return true;
            }
            i += 1;
        }
        let mut k: usize = 0;
        while k < file.profiles.entries.len()
            invariant
                k <= file.profiles.entries.len(),
                file.profiles.entries@.len() > 0,
                forall|j: int|
                    0 <= j < k ==> !filled((#[trigger] file.profiles.entries@[j]).1.api_key),
            decreases file.profiles.entries.len() - k,
        {
            if is_filled(&file.profiles.entries[k].1.api_key) {
                assert(filled(file.profiles.entries@[k as int].1.api_key));
                return true;
            }
            k += 1;
        }
        false
    }
}

/// The file names a key: flat, in a shared provider or on a profile.
pub open spec fn holds_key(file: ConfigFile) -> bool {
    ||| file.provider matches Some(p) && p.api_key is Some
    ||| any_provider(file.providers, |p: ProviderSection| p.api_key is Some)
    ||| any_profile(file.profiles, |p: ProfileSection| p.api_key is Some)
}

/// Whether the file names a key anywhere.
pub fn declares_key(file: &ConfigFile) -> (r: bool)
    ensures
        r == holds_key(*file),
{
    if let Some(provider) = &file.provider {
        if provider.api_key.is_some() {
            return true;
        }
    }
    let mut i: usize = 0;
    while i < file.providers.entries.len()
        invariant
            i <= file.providers.entries.len(),
            forall|j: int|
                0 <= j < i ==> (#[trigger] file.providers.entries@[j]).1.api_key is None,
        decreases file.providers.entries.len() - i,
    {
        if file.providers.entries[i].1.api_key.is_some() {
            assert(file.providers.entries@[i as int].1.api_key is Some);
            return true;
        }
        i += 1;
    }
    let mut k: usize = 0;
    while k < file.profiles.entries.len()
        invariant
            k <= file.profiles.entries.len(),
            forall|j: int|
                0 <= j < k ==> (#[trigger] file.profiles.entries@[j]).1.api_key is None,
        decreases file.profiles.entries.len() - k,
    {
        if file.profiles.entries[k].1.api_key.is_some() {
            assert(file.profiles.entries@[k as int].1.api_key is Some);
            return true;
        }
        k += 1;
    }
    false
}

/// Why a project file is refused.
pub open spec fn refusal(project: ConfigFile) -> Option<Fault> {
    if holds_key(project) {
        Some(ConfigError::ProjectKey)
    } else if project.mcp.entries@.len() > 0 {
        Some(ConfigError::ProjectMcp)
    } else if project.allow_commands@.len() > 0 {
        Some(ConfigError::ProjectPermissions)
    } else if project.profiles.entries@.len() > 0 || project.providers.entries@.len() > 0 {
        Some(ConfigError::ProjectProfiles)
    } else {
        None
    }
}

/// Refuse a project file that says what only the global file may say.
fn check_project(project: &ConfigFile) -> (r: Result<(), ConfigError<String>>)
    ensures
        match r {
            Ok(_) => refusal(*project) is None,
            Err(e) => refusal(*project) == Some(e@),
        },
{
    if declares_key(project) {
        return Err(ConfigError::ProjectKey);
    }
    if !project.mcp.is_empty() {
        return Err(ConfigError::ProjectMcp);
    }
    if project.allow_commands.len() > 0 {
        return Err(ConfigError::ProjectPermissions);
    }
    if !project.profiles.is_empty() || !project.providers.is_empty() {
        return Err(ConfigError::ProjectProfiles);
    }
    Ok(())
}

// ---------------------------------------------------------------------------------------------
// Prices
// ---------------------------------------------------------------------------------------------

/// The bits of a double that is finite and not negative; the zero with a sign is one.
pub open spec fn fair(bits: u64) -> bool {
    bits < 0x7ff0_0000_0000_0000 || bits == 0x8000_0000_0000_0000
}

/// Both prices are finite and not negative.
pub open spec fn fair_price(price: ModelPrice) -> bool {
    fair(price.input_per_million) && fair(price.output_per_million)
}

/// The prices of both files: the project's where it names a model, and its currency where it
/// names one.
pub open spec fn merged_prices(global: PricingSection, project: Option<PricingSection>) -> PricesModel {
    match project {
        Some(p) => PricesModel {
            currency: or(text::opt_view(p.currency), text::opt_view(global.currency)),
            models: config::price_map(global.models).union_prefer_right(
                config::price_map(p.models),
            ),
        },
        None => PricesModel {
            currency: text::opt_view(global.currency),
            models: config::price_map(global.models),
        },
    }
}

/// Every price is finite and not negative.
pub open spec fn fair_prices(prices: PricesModel) -> bool {
    forall|k: Seq<char>| #[trigger]
        prices.models.dom().contains(k) ==> fair_price(prices.models[k])
}

/// The prices of both files.
pub fn resolve_prices(global: PricingSection, project: Option<PricingSection>) -> (r: Result<
    Prices,
    ConfigError<String>,
>)
    requires
        global.models.wf(),
        project matches Some(p) ==> p.models.wf(),
    ensures
        match r {
            Ok(prices) => prices@ == merged_prices(global, project) && fair_prices(prices@),
            Err(e) => e@ == Fault::BadPrice && !fair_prices(merged_prices(global, project)),
        },
{
    let ghost wanted = merged_prices(global, project);
    let mut currency = global.currency;
    let mut models = global.models;
    if let Some(p) = project {
        currency = match p.currency {
            Some(c) => Some(c),
            None => currency,
        };
        let ghost before = models;
        let ghost added = p.models;
        models.extend(p.models);
        assert(config::price_map(models) =~= config::price_map(before).union_prefer_right(
            config::price_map(added),
        )) by {
            assert forall|k: Seq<char>| true implies #[trigger] models.get_spec(k) == or(
                added.get_spec(k),
                before.get_spec(k),
            ) by {}
        }
    }
    let prices = Prices { currency, models };
    assert(prices@ == wanted);
    let mut i: usize = 0;
    while i < prices.models.entries.len()
        invariant
            i <= prices.models.entries.len(),
            prices.models.wf(),
            prices@ == merged_prices(global, project),
            forall|j: int| 0 <= j < i ==> fair_price((#[trigger] prices.models.entries@[j]).1),
        decreases prices.models.entries.len() - i,
    {
        let price: ModelPrice = prices.models.entries[i].1;
        if !is_fair(price.input_per_million) || !is_fair(price.output_per_million) {
            proof {
                let key = prices.models.entries@[i as int].0@;
                table::lemma_lookup_entry(prices.models.entries@, i as int);
                assert(prices@.models.dom().contains(key));
            }
            return Err(ConfigError::BadPrice);
        }
        i += 1;
    }
    assert forall|k: Seq<char>| #[trigger] prices@.models.dom().contains(k) implies fair_price(
        prices@.models[k],
    ) by {
        table::lemma_index_of(prices.models.entries@, k);
        let at = table::index_of(prices.models.entries@, k);
        assert(fair_price(prices.models.entries@[at as int].1));
    }
    Ok(prices)
}

fn is_fair(bits: u64) -> (r: bool)
    ensures
        r == fair(bits),
{
    bits < 0x7ff0_0000_0000_0000 || bits == 0x8000_0000_0000_0000
}

// ---------------------------------------------------------------------------------------------
// Servers
// ---------------------------------------------------------------------------------------------

/// The section is of a server that is reached by URL.
pub open spec fn remote(section: McpSection) -> bool {
    section.kind matches Some(k) && scan::lower(k@) == scan::lower("remote"@)
}

/// The server of a section.
pub open spec fn server_of(name: Seq<char>, section: McpSection) -> Result<McpServerModel, Fault> {
    let enabled = or_value(section.enabled, true);
    if remote(section) {
        match section.url {
            None => Err(ConfigError::RemoteWithoutUrl { server: name }),
            Some(url) => Ok(
                McpServerModel {
                    name,
                    command: seq![],
                    args: seq![],
                    trusted: section.trusted,
                    env: Map::empty(),
                    url: Some(url@),
                    headers: config::text_map(section.headers),
                    enabled,
                },
            ),
        }
    } else {
        match section.command {
            None => Err(ConfigError::MissingCommand { server: name }),
            Some(command) => Ok(
                McpServerModel {
                    name,
                    command: command@,
                    args: text::views(section.args@),
                    trusted: section.trusted,
                    env: config::text_map(section.env).union_prefer_right(
                        config::text_map(section.environment),
                    ),
                    url: None,
                    headers: Map::empty(),
                    enabled,
                },
            ),
        }
    }
}

/// The servers of some sections, or what is wrong with the first that makes none.
pub open spec fn servers_of(sections: Seq<(String, McpSection)>) -> Result<
    Seq<McpServerModel>,
    Fault,
>
    decreases sections.len(),
{
    if sections.len() == 0 {
        Ok(seq![])
    } else {
        match servers_of(sections.drop_last()) {
            Err(e) => Err(e),
            Ok(servers) => match server_of(sections.last().0@, sections.last().1) {
                Err(e) => Err(e),
                Ok(server) => Ok(servers.push(server)),
            },
        }
    }
}

/// Once a section makes no server, that is what is wrong with any longer list.
proof fn lemma_servers_fault(sections: Seq<(String, McpSection)>, n: int)
    requires
        0 <= n <= sections.len(),
        servers_of(sections.take(n)) is Err,
    ensures
        servers_of(sections) == servers_of(sections.take(n)),
    decreases sections.len(),
{
    if n == sections.len() {
        assert(sections.take(n) =~= sections);
    } else {
        assert(sections.drop_last().take(n) =~= sections.take(n));
        lemma_servers_fault(sections.drop_last(), n);
    }
}

/// The server of a section.
fn resolve_server(name: String, section: McpSection) -> (r: Result<McpServer, ConfigError<String>>)
    requires
        section.wf(),
    ensures
        match r {
            Ok(server) => server_of(name@, section) == Ok::<McpServerModel, Fault>(server@),
            Err(e) => server_of(name@, section) == Err::<McpServerModel, Fault>(e@),
        },
{
    let enabled = otherwise(section.enabled, true);
    let is_remote = match &section.kind {
        Some(k) => same_ignoring_case(k.as_str(), "remote"),
        None => false,
    };
    if is_remote {
        match section.url {
            None => Err(ConfigError::RemoteWithoutUrl { server: name }),
            Some(url) => {
                let env: Table<String> = Table::new();
                assert(config::text_map(env) =~= Map::empty());
                let server = McpServer {
                    name,
                    command: String::new(),
                    args: Vec::new(),
                    trusted: section.trusted,
                    env,
                    url: Some(url),
                    headers: section.headers,
                    enabled,
                };
                assert(server@.args =~= seq![]);
                assert(server@.command =~= seq![]);
                Ok(server)
            },
        }
    } else {
        match section.command {
            None => Err(ConfigError::MissingCommand { server: name }),
            Some(command) => {
                let mut env = section.env;
                let ghost before = env;
                let ghost added = section.environment;
                env.extend(section.environment);
                assert(config::text_map(env) =~= config::text_map(before).union_prefer_right(
                    config::text_map(added),
                )) by {
                    assert forall|k: Seq<char>| true implies #[trigger] env.get_spec(k) == or(
                        added.get_spec(k),
                        before.get_spec(k),
                    ) by {}
                }
                let headers: Table<String> = Table::new();
                assert(config::text_map(headers) =~= Map::empty());
                Ok(
                    McpServer {
                        name,
                        command,
                        args: section.args,
                        trusted: section.trusted,
                        env,
                        url: None,
                        headers,
                        enabled,
                    },
                )
            },
        }
    }
}

/// The servers of some sections in the order of their names. A disabled server is kept.
pub open spec fn ordered_servers(sections: Seq<(String, McpSection)>) -> Result<
    Seq<McpServerModel>,
    Fault,
> {
    match servers_of(sections) {
        Err(e) => Err(e),
        Ok(servers) => Ok(order::sorted_by(servers, order::name_key::<McpServer>())),
    }
}

/// The servers of `[mcp.<name>]` sections, in the order of their names.
pub fn resolve_mcp_servers(sections: Table<McpSection>) -> (r: Result<
    Vec<McpServer>,
    ConfigError<String>,
>)
    requires
        forall|i: int| 0 <= i < sections.entries@.len() ==> (#[trigger] sections.entries@[i]).1.wf(),
    ensures
        match r {
            Ok(servers) => ordered_servers(sections.entries@) == Ok::<Seq<McpServerModel>, Fault>(
                text::views(servers@),
            ),
            Err(e) => ordered_servers(sections.entries@) == Err::<Seq<McpServerModel>, Fault>(e@),
        },
{
    let ghost all = sections.entries@;
    let mut rest = sections.entries;
    let mut servers: Vec<McpServer> = Vec::new();
    let ghost mut done: int = 0;
    assert(text::views(servers@) =~= seq![]);
    while rest.len() > 0
        invariant
            0 <= done <= all.len(),
            all == sections.entries@,
            rest@ == all.skip(done),
            forall|i: int| 0 <= i < all.len() ==> (#[trigger] all[i]).1.wf(),
            servers_of(all.take(done)) == Ok::<Seq<McpServerModel>, Fault>(text::views(servers@)),
        decreases rest.len(),
    {
        let ghost before = text::views(servers@);
        let (name, section) = rest.remove(0);
        proof {
            assert(all[done] == (name, section));
            assert(all.take(done + 1).drop_last() =~= all.take(done));
            assert(all.take(done + 1).last() == (name, section));
        }
        match resolve_server(name, section) {
            Err(e) => {
                proof {
                    lemma_servers_fault(all, done + 1);
                }
                return Err(e);
            },
            Ok(server) => {
                servers.push(server);
                assert(text::views(servers@) =~= before.push(server@));
            },
        }
        proof {
            assert(all.skip(done).remove(0) =~= all.skip(done + 1));
            done = done + 1;
        }
    }
    assert(all.take(done) =~= all);
    Ok(order::sort_named(servers))
}

// ---------------------------------------------------------------------------------------------
// Profiles
// ---------------------------------------------------------------------------------------------

/// The profile of the flat form: the top-level model and provider, with what a project file says
/// in front of what the global file says. The key comes from the global file alone.
pub open spec fn flat_profile(global: ConfigFile, project: Option<ConfigFile>) -> Result<
    ProfileModel,
    Fault,
> {
    let upper = provider_in(project);
    let lower = or_value(global.provider, silent());
    match or(model_in(project), text::opt_view(global.model)) {
        None => Err(ConfigError::NoModel),
        Some(model) => match usable(text::opt_view(lower.api_key)) {
            None => Err(ConfigError::NoKey),
            Some(api_key) => Ok(
                ProfileModel {
                    name: DEFAULT_PROFILE_NAME@,
                    model,
                    base_url: or_value(
                        or(text::opt_view(upper.base_url), text::opt_view(lower.base_url)),
                        DEFAULT_BASE_URL@,
                    ),
                    api_key,
                    context_window: or(
                        match project {
                            Some(p) => p.context_window,
                            None => None,
                        },
                        global.context_window,
                    ),
                    tools: or_value(or(upper.tools, lower.tools), true),
                    embedding_model: or(
                        text::opt_view(upper.embedding_model),
                        text::opt_view(lower.embedding_model),
                    ),
                    completions_path: or(
                        text::opt_view(upper.completions_path),
                        text::opt_view(lower.completions_path),
                    ),
                    send_session_id: or_value(or(upper.send_session_id, lower.send_session_id), false),
                },
            ),
        },
    }
}

/// The profile of the flat form.
pub fn resolve_flat(global: &ConfigFile, project: &Option<ConfigFile>) -> (r: Result<
    Profile,
    ConfigError<String>,
>)
    ensures
        match r {
            Ok(profile) => flat_profile(*global, *project) == Ok::<ProfileModel, Fault>(profile@),
            Err(e) => flat_profile(*global, *project) == Err::<ProfileModel, Fault>(e@),
        },
{
    let none = silent_section();
    let upper: &ProviderSection = match project {
        Some(p) => match &p.provider {
            Some(section) => section,
            None => &none,
        },
        None => &none,
    };
    let lower: &ProviderSection = match &global.provider {
        Some(section) => section,
        None => &none,
    };
    let first_model: Option<String> = match project {
        Some(p) => copy_opt(&p.model),
        None => None,
    };
    let model = match pick(&first_model, &global.model) {
        Some(model) => model,
        None => {
            return Err(ConfigError::NoModel);
        },
    };
    let api_key = match keep_usable(copy_opt(&lower.api_key)) {
        Some(key) => key,
        None => {
            return Err(ConfigError::NoKey);
        },
    };
    let context_window = either(
        match project {
            Some(p) => p.context_window,
            None => None,
        },
        global.context_window,
    );
    Ok(
        Profile {
            name: DEFAULT_PROFILE_NAME.to_owned(),
            model,
            base_url: text_or(pick(&upper.base_url, &lower.base_url), DEFAULT_BASE_URL),
            api_key,
            context_window,
            tools: otherwise(either(upper.tools, lower.tools), true),
            embedding_model: pick(&upper.embedding_model, &lower.embedding_model),
            completions_path: pick(&upper.completions_path, &lower.completions_path),
            send_session_id: otherwise(either(upper.send_session_id, lower.send_session_id), false),
        },
    )
}

/// The profile of a section that inherits from `shared`: what the section says, in front of what
/// the shared provider says.
pub open spec fn inheriting(name: Seq<char>, section: ProfileSection, shared: ProviderSection) -> Result<
    ProfileModel,
    Fault,
> {
    match section.model {
        None => Err(ConfigError::ProfileWithoutModel { profile: name }),
        Some(model) => match usable(
            or(text::opt_view(section.api_key), text::opt_view(shared.api_key)),
        ) {
            None => Err(ConfigError::ProfileWithoutKey { profile: name }),
            Some(api_key) => Ok(
                ProfileModel {
                    name,
                    model: model@,
                    base_url: or_value(
                        or(text::opt_view(section.base_url), text::opt_view(shared.base_url)),
                        DEFAULT_BASE_URL@,
                    ),
                    api_key,
                    context_window: section.context_window,
                    tools: or_value(or(section.tools, shared.tools), true),
                    embedding_model: or(
                        text::opt_view(section.embedding_model),
                        text::opt_view(shared.embedding_model),
                    ),
                    completions_path: or(
                        text::opt_view(section.completions_path),
                        text::opt_view(shared.completions_path),
                    ),
                    send_session_id: or_value(
                        or(section.send_session_id, shared.send_session_id),
                        false,
                    ),
                },
            ),
        },
    }
}

/// The profile of a section.
pub open spec fn profile_of(
    name: Seq<char>,
    section: ProfileSection,
    providers: Table<ProviderSection>,
) -> Result<ProfileModel, Fault> {
    match section.provider {
        None => inheriting(name, section, silent()),
        Some(reference) => match providers.get_spec(reference@) {
            None => Err(ConfigError::UnknownProvider { profile: name, provider: reference@ }),
            Some(shared) => inheriting(name, section, shared),
        },
    }
}

/// The profiles of some sections, or what is wrong with the first that makes none.
pub open spec fn profiles_of(
    sections: Seq<(String, ProfileSection)>,
    providers: Table<ProviderSection>,
) -> Result<Seq<ProfileModel>, Fault>
    decreases sections.len(),
{
    if sections.len() == 0 {
        Ok(seq![])
    } else {
        match profiles_of(sections.drop_last(), providers) {
            Err(e) => Err(e),
            Ok(profiles) => match profile_of(sections.last().0@, sections.last().1, providers) {
                Err(e) => Err(e),
                Ok(profile) => Ok(profiles.push(profile)),
            },
        }
    }
}

proof fn lemma_profiles_fault(
    sections: Seq<(String, ProfileSection)>,
    providers: Table<ProviderSection>,
    n: int,
)
    requires
        0 <= n <= sections.len(),
        profiles_of(sections.take(n), providers) is Err,
    ensures
        profiles_of(sections, providers) == profiles_of(sections.take(n), providers),
    decreases sections.len(),
{
    if n == sections.len() {
        assert(sections.take(n) =~= sections);
    } else {
        assert(sections.drop_last().take(n) =~= sections.take(n));
        lemma_profiles_fault(sections.drop_last(), providers, n);
    }
}

/// The profiles of the global file in the order of their names, and the name of the default.
pub open spec fn chosen_profiles(global: ConfigFile, project: Option<ConfigFile>) -> Result<
    (Seq<ProfileModel>, Seq<char>),
    Fault,
> {
    match profiles_of(global.profiles.entries@, global.providers) {
        Err(e) => Err(e),
        Ok(unordered) => {
            let profiles = order::sorted_by(unordered, order::name_key::<Profile>());
            let wanted = or(
                or(
                    match project {
                        Some(p) => text::opt_view(p.default_profile),
                        None => None,
                    },
                    text::opt_view(global.default_profile),
                ),
                if profiles.len() == 1 {
                    Some(profiles[0].name)
                } else {
                    None
                },
            );
            match wanted {
                None => Err(ConfigError::NoDefaultProfile),
                Some(name) => if config::is_named(profiles, name) {
                    Ok((profiles, name))
                } else {
                    Err(ConfigError::UnknownDefault { name })
                },
            }
        },
    }
}

/// The profile of a section that inherits from `shared`.
fn resolve_inheriting(name: &String, section: &ProfileSection, shared: &ProviderSection) -> (r: Result<
    Profile,
    ConfigError<String>,
>)
    ensures
        match r {
            Ok(profile) => inheriting(name@, *section, *shared) == Ok::<ProfileModel, Fault>(
                profile@,
            ),
            Err(e) => inheriting(name@, *section, *shared) == Err::<ProfileModel, Fault>(e@),
        },
{
    let model = match &section.model {
        Some(model) => model.clone(),
        None => {
            return Err(ConfigError::ProfileWithoutModel { profile: name.clone() });
        },
    };
    let api_key = match keep_usable(pick(&section.api_key, &shared.api_key)) {
        Some(key) => key,
        None => {
            return Err(ConfigError::ProfileWithoutKey { profile: name.clone() });
        },
    };
    Ok(
        Profile {
            name: name.clone(),
            model,
            base_url: text_or(pick(&section.base_url, &shared.base_url), DEFAULT_BASE_URL),
            api_key,
            context_window: section.context_window,
            tools: otherwise(either(section.tools, shared.tools), true),
            embedding_model: pick(&section.embedding_model, &shared.embedding_model),
            completions_path: pick(&section.completions_path, &shared.completions_path),
            send_session_id: otherwise(
                either(section.send_session_id, shared.send_session_id),
                false,
            ),
        },
    )
}

/// The profile of a section.
fn resolve_profile(
    name: &String,
    section: &ProfileSection,
    providers: &Table<ProviderSection>,
) -> (r: Result<Profile, ConfigError<String>>)
    ensures
        match r {
            Ok(profile) => profile_of(name@, *section, *providers) == Ok::<ProfileModel, Fault>(
                profile@,
            ),
            Err(e) => profile_of(name@, *section, *providers) == Err::<ProfileModel, Fault>(e@),
        },
{
    match &section.provider {
        None => {
            let none = silent_section();
            resolve_inheriting(name, section, &none)
        },
        Some(reference) => match providers.get(reference.as_str()) {
            None => Err(
                ConfigError::UnknownProvider {
                    profile: name.clone(),
                    provider: reference.clone(),
                },
            ),
            Some(shared) => resolve_inheriting(name, section, shared),
        },
    }
}

/// The profiles of the global file in the order of their names, and the name of the default.
pub fn resolve_profiles(global: &ConfigFile, project: &Option<ConfigFile>) -> (r: Result<
    (Vec<Profile>, String),
    ConfigError<String>,
>)
    ensures
        match r {
            Ok(pair) => chosen_profiles(*global, *project) == Ok::<
                (Seq<ProfileModel>, Seq<char>),
                Fault,
            >((text::views(pair.0@), pair.1@)),
            Err(e) => chosen_profiles(*global, *project) == Err::<
                (Seq<ProfileModel>, Seq<char>),
                Fault,
            >(e@),
        },
{
    let ghost all = global.profiles.entries@;
    let mut unordered: Vec<Profile> = Vec::new();
    let mut i: usize = 0;
    assert(text::views(unordered@) =~= seq![]);
    while i < global.profiles.entries.len()
        invariant
            i <= global.profiles.entries.len(),
            all == global.profiles.entries@,
            profiles_of(all.take(i as int), global.providers) == Ok::<Seq<ProfileModel>, Fault>(
                text::views(unordered@),
            ),
        decreases global.profiles.entries.len() - i,
    {
        let ghost before = text::views(unordered@);
        proof {
            assert(all.take(i + 1).drop_last() =~= all.take(i as int));
            assert(all.take(i + 1).last() == all[i as int]);
        }
        let entry = &global.profiles.entries[i];
        match resolve_profile(&entry.0, &entry.1, &global.providers) {
            Err(e) => {
                proof {
                    lemma_profiles_fault(all, global.providers, i + 1);
                }
                return Err(e);
            },
            Ok(profile) => {
                unordered.push(profile);
                assert(text::views(unordered@) =~= before.push(profile@));
            },
        }
        i += 1;
    }
    assert(all.take(i as int) =~= all);
    let profiles = order::sort_named(unordered);
    let first: Option<String> = match project {
        Some(p) => copy_opt(&p.default_profile),
        None => None,
    };
    let only: Option<String> = if profiles.len() == 1 {
        Some(profiles[0].name.clone())
    } else {
        None
    };
    let stated = pick(&first, &global.default_profile);
    match pick(&stated, &only) {
        None => Err(ConfigError::NoDefaultProfile),
        Some(name) => {
            let mut k: usize = 0;
            while k < profiles.len()
                invariant
                    k <= profiles.len(),
                    forall|j: int|
                        0 <= j < k ==> (#[trigger] text::views(profiles@)[j]).name != name@,
                    chosen_profiles(*global, *project) == if config::is_named(
                        text::views(profiles@),
                        name@,
                    ) {
                        Ok::<(Seq<ProfileModel>, Seq<char>), Fault>(
                            (text::views(profiles@), name@),
                        )
                    } else {
                        Err(ConfigError::UnknownDefault { name: name@ })
                    },
                decreases profiles.len() - k,
            {
                if same(profiles[k].name.as_str(), name.as_str()) {
                    assert(text::views(profiles@)[k as int].name == name@);
                    return Ok((profiles, name));
                }
                k += 1;
            }
            Err(ConfigError::UnknownDefault { name })
        },
    }
}

// ---------------------------------------------------------------------------------------------
// The whole
// ---------------------------------------------------------------------------------------------

/// The theme that the files ask for; the project's in front of the global one.
pub open spec fn chosen_theme(global: ConfigFile, project: Option<ConfigFile>) -> Result<
    Theme,
    Fault,
> {
    match or(
        match project {
            Some(p) => text::opt_view(p.theme),
            None => None,
        },
        text::opt_view(global.theme),
    ) {
        None => Ok(Theme::Default),
        Some(name) => match Theme::parse_spec(name) {
            Some(theme) => Ok(theme),
            None => Err(ConfigError::UnknownTheme { name }),
        },
    }
}

/// The profiles and the default of either form.
pub open spec fn all_profiles(global: ConfigFile, project: Option<ConfigFile>) -> Result<
    (Seq<ProfileModel>, Seq<char>),
    Fault,
> {
    if global.profiles.entries@.len() == 0 {
        match flat_profile(global, project) {
            Err(e) => Err(e),
            Ok(profile) => Ok((seq![profile], profile.name)),
        }
    } else {
        chosen_profiles(global, project)
    }
}

/// A limit: the project's, or else the global file's, or else the default.
pub open spec fn limit(project: Option<Option<u64>>, global: Option<u64>, default: u64) -> u64 {
    or_value(or(or_value(project, None), global), default)
}

/// The pricing section of a project file.
pub open spec fn pricing_in(project: Option<ConfigFile>) -> Option<PricingSection> {
    match project {
        Some(p) => Some(p.pricing),
        None => None,
    }
}

/// The configuration that the files make up, or the first thing that is wrong with them.
pub open spec fn resolved(global: ConfigFile, project: Option<ConfigFile>) -> Result<
    ConfigModel,
    Fault,
> {
    let refused = match project {
        Some(p) => refusal(p),
        None => None,
    };
    let prices = merged_prices(global.pricing, pricing_in(project));
    if refused is Some {
        Err(refused->0)
    } else if !fair_prices(prices) {
        Err(ConfigError::BadPrice)
    } else {
        match ordered_servers(global.mcp.entries@) {
            Err(e) => Err(e),
            Ok(mcp_servers) => match chosen_theme(global, project) {
                Err(e) => Err(e),
                Ok(theme) => match all_profiles(global, project) {
                    Err(e) => Err(e),
                    Ok(chosen) => Ok(
                        ConfigModel {
                            profiles: chosen.0,
                            default_profile: chosen.1,
                            mcp_servers,
                            allow_commands: text::views(global.allow_commands@),
                            command_timeout_secs: limit(
                                match project {
                                    Some(p) => Some(p.commands.timeout_secs),
                                    None => None,
                                },
                                global.commands.timeout_secs,
                                DEFAULT_COMMAND_TIMEOUT_SECS,
                            ),
                            background_max_secs: limit(
                                match project {
                                    Some(p) => Some(p.commands.background_max_secs),
                                    None => None,
                                },
                                global.commands.background_max_secs,
                                DEFAULT_BACKGROUND_MAX_SECS,
                            ),
                            prices,
                            theme,
                        },
                    ),
                },
            },
        }
    }
}

fn resolve_theme(global: &ConfigFile, project: &Option<ConfigFile>) -> (r: Result<
    Theme,
    ConfigError<String>,
>)
    ensures
        match r {
            Ok(theme) => chosen_theme(*global, *project) == Ok::<Theme, Fault>(theme),
            Err(e) => chosen_theme(*global, *project) == Err::<Theme, Fault>(e@),
        },
{
    let first: Option<String> = match project {
        Some(p) => copy_opt(&p.theme),
        None => None,
    };
    match pick(&first, &global.theme) {
        None => Ok(Theme::Default),
        Some(name) => match Theme::parse(name.as_str()) {
            Some(theme) => Ok(theme),
            None => Err(ConfigError::UnknownTheme { name }),
        },
    }
}

fn resolve_all_profiles(global: &ConfigFile, project: &Option<ConfigFile>) -> (r: Result<
    (Vec<Profile>, String),
    ConfigError<String>,
>)
    ensures
        match r {
            Ok(pair) => all_profiles(*global, *project) == Ok::<
                (Seq<ProfileModel>, Seq<char>),
                Fault,
            >((text::views(pair.0@), pair.1@)),
            Err(e) => all_profiles(*global, *project) == Err::<
                (Seq<ProfileModel>, Seq<char>),
                Fault,
            >(e@),
        },
{
    if global.profiles.is_empty() {
        match resolve_flat(global, project) {
            Err(e) => Err(e),
            Ok(profile) => {
                let name = profile.name.clone();
                let ghost model = profile@;
                let mut profiles: Vec<Profile> = Vec::new();
                profiles.push(profile);
                assert(text::views(profiles@) =~= seq![model]);
                Ok((profiles, name))
            },
        }
    } else {
        resolve_profiles(global, project)
    }
}

/// What loading comes to: the file to fill in where the global file is not there yet or the files
/// do not hold enough to start with, or else what the files make up. `path` is that of the global
/// file.
pub open spec fn loaded_files(
    path: Seq<char>,
    global: Option<ConfigFile>,
    project: Option<ConfigFile>,
) -> Result<Result<ConfigModel, Fault>, Seq<char>> {
    match global {
        None => Err(path),
        Some(file) => if usable_configuration(file, project) {
            Ok(resolved(file, project))
        } else {
            Err(path)
        },
    }
}

/// What loading comes to, from the files that were found. `path` is that of the global file.
pub fn loaded(path: &str, global: Option<ConfigFile>, project: Option<ConfigFile>) -> (r: Result<
    Loaded,
    ConfigError<String>,
>)
    requires
        global matches Some(file) ==> file.wf(),
        project matches Some(file) ==> file.wf(),
    ensures
        match loaded_files(path@, global, project) {
            Err(unfilled) => (r matches Ok(Loaded::NeedsSetup(shown)) && shown@ == unfilled),
            Ok(Ok(model)) => (r matches Ok(Loaded::Ready(config)) && config@ == model
                && config@.wf()),
            Ok(Err(fault)) => (r matches Err(e) && e@ == fault),
        },
{
    match global {
        None => Ok(Loaded::NeedsSetup(path.to_owned())),
        Some(file) => {
            if !has_usable_configuration(&file, project.as_ref()) {
                return Ok(Loaded::NeedsSetup(path.to_owned()));
            }
            match resolve(file, project) {
                Ok(config) => Ok(Loaded::Ready(config)),
                Err(e) => Err(e),
            }
        },
    }
}

/// Merge a global file with an optional project file.
pub fn resolve(global: ConfigFile, project: Option<ConfigFile>) -> (r: Result<
    Config,
    ConfigError<String>,
>)
    requires
        global.wf(),
        project matches Some(p) ==> p.wf(),
    ensures
        match r {
            Ok(config) => resolved(global, project) == Ok::<ConfigModel, Fault>(config@)
                && config@.wf(),
            Err(e) => resolved(global, project) == Err::<ConfigModel, Fault>(e@),
        },
{
    if let Some(p) = &project {
        if let Err(e) = check_project(p) {
            return Err(e);
        }
    }
    let command_timeout_secs = otherwise(
        either(
            match &project {
                Some(p) => p.commands.timeout_secs,
                None => None,
            },
            global.commands.timeout_secs,
        ),
        DEFAULT_COMMAND_TIMEOUT_SECS,
    );
    let background_max_secs = otherwise(
        either(
            match &project {
                Some(p) => p.commands.background_max_secs,
                None => None,
            },
            global.commands.background_max_secs,
        ),
        DEFAULT_BACKGROUND_MAX_SECS,
    );
    let theme = resolve_theme(&global, &project);
    let chosen = resolve_all_profiles(&global, &project);
    let prices = match resolve_prices(
        global.pricing,
        match project {
            Some(p) => Some(p.pricing),
            None => None,
        },
    ) {
        Ok(prices) => prices,
        Err(e) => {
            return Err(e);
        },
    };
    let mcp_servers = match resolve_mcp_servers(global.mcp) {
        Ok(servers) => servers,
        Err(e) => {
            return Err(e);
        },
    };
    let theme = match theme {
        Ok(theme) => theme,
        Err(e) => {
            return Err(e);
        },
    };
    let (profiles, default_profile) = match chosen {
        Ok(pair) => pair,
        Err(e) => {
            return Err(e);
        },
    };
    proof {
        lemma_default_exists(global, project);
    }
    Ok(
        Config {
            profiles,
            default_profile,
            mcp_servers,
            allow_commands: global.allow_commands,
            command_timeout_secs,
            background_max_secs,
            prices,
            theme,
        },
    )
}

proof fn lemma_default_exists(global: ConfigFile, project: Option<ConfigFile>)
    ensures
        all_profiles(global, project) matches Ok(chosen) ==> config::is_named(chosen.0, chosen.1),
{
    if global.profiles.entries@.len() == 0 {
        if let Ok(profile) = flat_profile(global, project) {
            assert(seq![profile][0].name == profile.name);
        }
    }
}

// ---------------------------------------------------------------------------------------------
// Laws
// ---------------------------------------------------------------------------------------------

/// A project file that is accepted holds no key, launches no server, allows no command and defines
/// no profile or provider; what the run allows and launches is what the global file says.
pub proof fn law_project_grants_nothing(global: ConfigFile, project: ConfigFile)
    requires
        resolved(global, Some(project)) is Ok,
    ensures
        !holds_key(project),
        project.mcp.entries@.len() == 0,
        project.allow_commands@.len() == 0,
        project.profiles.entries@.len() == 0,
        project.providers.entries@.len() == 0,
        resolved(global, Some(project))->Ok_0.allow_commands == text::views(
            global.allow_commands@,
        ),
        ordered_servers(global.mcp.entries@) == Ok::<Seq<McpServerModel>, Fault>(
            resolved(global, Some(project))->Ok_0.mcp_servers,
        ),
{
}

/// The keys of the profiles are those that the global file alone would give: a project file
/// changes none of them.
pub proof fn law_keys_come_from_the_global_file(
    global: ConfigFile,
    project: ConfigFile,
    i: int,
)
    requires
        resolved(global, Some(project)) is Ok,
        0 <= i < resolved(global, Some(project))->Ok_0.profiles.len(),
    ensures
        global.profiles.entries@.len() == 0 ==> usable(
            text::opt_view(or_value(global.provider, silent()).api_key),
        ) == Some(resolved(global, Some(project))->Ok_0.profiles[i].api_key),
        global.profiles.entries@.len() > 0 ==> profiles_of(
            global.profiles.entries@,
            global.providers,
        ) is Ok && resolved(global, Some(project))->Ok_0.profiles == order::sorted_by(
            profiles_of(global.profiles.entries@, global.providers)->Ok_0,
            order::name_key::<Profile>(),
        ),
{
}

proof fn lemma_profile_names(
    sections: Seq<(String, ProfileSection)>,
    providers: Table<ProviderSection>,
)
    requires
        profiles_of(sections, providers) is Ok,
    ensures
        profiles_of(sections, providers)->Ok_0.len() == sections.len(),
        forall|i: int|
            0 <= i < sections.len() ==> (#[trigger] profiles_of(
                sections,
                providers,
            )->Ok_0[i]).name == sections[i].0@,
    decreases sections.len(),
{
    if sections.len() > 0 {
        lemma_profile_names(sections.drop_last(), providers);
    }
}

/// The profiles are listed in the order of their names, one for each section.
pub proof fn law_profiles_are_sorted(global: ConfigFile, project: Option<ConfigFile>)
    requires
        resolved(global, project) is Ok,
    ensures
        order::sorted(
            order::keys(resolved(global, project)->Ok_0.profiles, order::name_key::<Profile>()),
        ),
        global.profiles.entries@.len() > 0 ==> resolved(global, project)->Ok_0.profiles.len()
            == global.profiles.entries@.len(),
        global.profiles.entries@.len() == 0 ==> resolved(global, project)->Ok_0.profiles.len() == 1,
{
    let key = order::name_key::<Profile>();
    let profiles = resolved(global, project)->Ok_0.profiles;
    if global.profiles.entries@.len() == 0 {
        assert forall|i: int, j: int|
            0 <= i <= j < order::keys(profiles, key).len() implies order::at_most(
            #[trigger] order::keys(profiles, key)[i],
            #[trigger] order::keys(profiles, key)[j],
        ) by {
            order::lemma_reflexive(order::keys(profiles, key)[i]);
        }
    } else {
        let unordered = profiles_of(global.profiles.entries@, global.providers)->Ok_0;
        order::law_sorted_by(unordered, key);
        lemma_profile_names(global.profiles.entries@, global.providers);
    }
}

/// The servers are listed in the order of their names, one for each section, disabled ones too.
pub proof fn law_servers_are_sorted(global: ConfigFile, project: Option<ConfigFile>)
    requires
        resolved(global, project) is Ok,
    ensures
        order::sorted(
            order::keys(resolved(global, project)->Ok_0.mcp_servers, order::name_key::<McpServer>()),
        ),
        resolved(global, project)->Ok_0.mcp_servers.len() == global.mcp.entries@.len(),
{
    let unordered = servers_of(global.mcp.entries@)->Ok_0;
    order::law_sorted_by(unordered, order::name_key::<McpServer>());
    lemma_server_count(global.mcp.entries@);
}

proof fn lemma_server_count(sections: Seq<(String, McpSection)>)
    requires
        servers_of(sections) is Ok,
    ensures
        servers_of(sections)->Ok_0.len() == sections.len(),
    decreases sections.len(),
{
    if sections.len() > 0 {
        lemma_server_count(sections.drop_last());
    }
}

/// The default is one of the profiles, whatever the files say.
pub proof fn law_default_exists(global: ConfigFile, project: Option<ConfigFile>)
    requires
        resolved(global, project) is Ok,
    ensures
        resolved(global, project)->Ok_0.wf(),
{
    lemma_default_exists(global, project);
}

/// Files that resolve in the flat form hold enough to start with, unless the model is nothing but
/// white space.
pub proof fn law_resolved_is_usable(global: ConfigFile, project: Option<ConfigFile>)
    requires
        global.profiles.entries@.len() == 0,
        resolved(global, project) is Ok,
        !scan::blank(resolved(global, project)->Ok_0.profiles[0].model),
    ensures
        usable_configuration(global, project),
{
}

// ---------------------------------------------------------------------------------------------
// Where settings come from
// ---------------------------------------------------------------------------------------------

/// A setting is what the first source says; where it says nothing, what the second says; and what
/// is built in only where neither says anything.
pub open spec fn comes_from<T>(setting: T, first: Option<T>, second: Option<T>, built_in: T) -> bool {
    &&& first is Some ==> setting == first->0
    &&& first is None && second is Some ==> setting == second->0
    &&& first is None && second is None ==> setting == built_in
}

/// What the `[provider]` section of a file says, where the file has one.
pub open spec fn said<T>(
    file: Option<ConfigFile>,
    field: spec_fn(ProviderSection) -> Option<T>,
) -> Option<T> {
    match file {
        Some(f) => match f.provider {
            Some(section) => field(section),
            None => None,
        },
        None => None,
    }
}

/// Without profiles there is one profile, and each of its settings is the project's where the project
/// file gives it, else the global file's, and the built-in one only where neither gives it. The key
/// is the global file's.
pub proof fn law_flat_settings_come_from_the_files(global: ConfigFile, project: Option<ConfigFile>)
    requires
        global.profiles.entries@.len() == 0,
        resolved(global, project) is Ok,
    ensures
        ({
            let config = resolved(global, project)->Ok_0;
            let profile = config.profiles[0];
            let base_url = |s: ProviderSection| text::opt_view(s.base_url);
            let tools = |s: ProviderSection| s.tools;
            let embedding = |s: ProviderSection| text::opt_view(s.embedding_model);
            let path = |s: ProviderSection| text::opt_view(s.completions_path);
            let session = |s: ProviderSection| s.send_session_id;
            let key = |s: ProviderSection| text::opt_view(s.api_key);
            let own_model = match project {
                Some(f) => text::opt_view(f.model),
                None => None,
            };
            let own_window = match project {
                Some(f) => f.context_window,
                None => None,
            };
            &&& config.profiles.len() == 1
            &&& config.default_profile == profile.name
            &&& profile.name == "default"@
            &&& comes_from(
                profile.base_url,
                said(project, base_url),
                said(Some(global), base_url),
                "https://api.openai.com/v1"@,
            )
            &&& comes_from(profile.tools, said(project, tools), said(Some(global), tools), true)
            &&& comes_from(
                profile.send_session_id,
                said(project, session),
                said(Some(global), session),
                false,
            )
            &&& own_model is Some ==> profile.model == own_model->0
            &&& own_model is None ==> text::opt_view(global.model) == Some(profile.model)
            &&& profile.context_window is None <==> own_window is None && global.context_window is None
            &&& profile.context_window is Some ==> comes_from(
                profile.context_window->0,
                own_window,
                global.context_window,
                0,
            )
            &&& profile.embedding_model is None <==> said(project, embedding) is None && said(
                Some(global),
                embedding,
            ) is None
            &&& profile.embedding_model is Some ==> comes_from(
                profile.embedding_model->0,
                said(project, embedding),
                said(Some(global), embedding),
                seq![],
            )
            &&& profile.completions_path is None <==> said(project, path) is None && said(
                Some(global),
                path,
            ) is None
            &&& profile.completions_path is Some ==> comes_from(
                profile.completions_path->0,
                said(project, path),
                said(Some(global), path),
                seq![],
            )
            &&& said(Some(global), key) == Some(profile.api_key)
            &&& !scan::blank(profile.api_key)
        }),
{
}

/// What a profile of the global file gets from its section and from the shared provider that the
/// section names: each setting is the section's where it gives it, else the shared provider's, and
/// the built-in one only where neither gives it.
pub open spec fn belongs_to(
    profile: ProfileModel,
    section: ProfileSection,
    shared: Option<ProviderSection>,
) -> bool {
    let base_url = match shared {
        Some(s) => text::opt_view(s.base_url),
        None => None,
    };
    let key = match shared {
        Some(s) => text::opt_view(s.api_key),
        None => None,
    };
    let tools = match shared {
        Some(s) => s.tools,
        None => None,
    };
    let embedding = match shared {
        Some(s) => text::opt_view(s.embedding_model),
        None => None,
    };
    let path = match shared {
        Some(s) => text::opt_view(s.completions_path),
        None => None,
    };
    let session = match shared {
        Some(s) => s.send_session_id,
        None => None,
    };
    &&& section.model matches Some(model) && profile.model == model@
    &&& profile.context_window == section.context_window
    &&& comes_from(
        profile.base_url,
        text::opt_view(section.base_url),
        base_url,
        "https://api.openai.com/v1"@,
    )
    &&& section.api_key is Some || key is Some
    &&& comes_from(profile.api_key, text::opt_view(section.api_key), key, seq![])
    &&& !scan::blank(profile.api_key)
    &&& comes_from(profile.tools, section.tools, tools, true)
    &&& comes_from(profile.send_session_id, section.send_session_id, session, false)
    &&& profile.embedding_model is None <==> section.embedding_model is None && embedding is None
    &&& profile.embedding_model is Some ==> comes_from(
        profile.embedding_model->0,
        text::opt_view(section.embedding_model),
        embedding,
        seq![],
    )
    &&& profile.completions_path is None <==> section.completions_path is None && path is None
    &&& profile.completions_path is Some ==> comes_from(
        profile.completions_path->0,
        text::opt_view(section.completions_path),
        path,
        seq![],
    )
}

proof fn lemma_profile_at(
    sections: Seq<(String, ProfileSection)>,
    providers: Table<ProviderSection>,
    i: int,
)
    requires
        profiles_of(sections, providers) is Ok,
        0 <= i < sections.len(),
    ensures
        profiles_of(sections, providers)->Ok_0.len() == sections.len(),
        profile_of(sections[i].0@, sections[i].1, providers) == Ok::<ProfileModel, Fault>(
            profiles_of(sections, providers)->Ok_0[i],
        ),
    decreases sections.len(),
{
    lemma_profile_names(sections, providers);
    if i < sections.len() - 1 {
        lemma_profile_at(sections.drop_last(), providers, i);
    }
}

/// Every profile section of the global file becomes a profile of the same name, with the settings of
/// the section and of the shared provider that it names.
pub proof fn law_every_profile_section_becomes_a_profile(
    global: ConfigFile,
    project: Option<ConfigFile>,
    i: int,
)
    requires
        0 <= i < global.profiles.entries@.len(),
        resolved(global, project) is Ok,
    ensures
        ({
            let section = global.profiles.entries@[i].1;
            let shared = match section.provider {
                Some(name) => global.providers.get_spec(name@),
                None => None,
            };
            &&& section.provider is Some ==> shared is Some
            &&& exists|k: int|
                0 <= k < resolved(global, project)->Ok_0.profiles.len() && (#[trigger] resolved(
                    global,
                    project,
                )->Ok_0.profiles[k]).name == global.profiles.entries@[i].0@ && belongs_to(
                    resolved(global, project)->Ok_0.profiles[k],
                    section,
                    shared,
                )
        }),
{
    let sections = global.profiles.entries@;
    let unordered = profiles_of(sections, global.providers)->Ok_0;
    lemma_profile_at(sections, global.providers, i);
    lemma_profile_names(sections, global.providers);
    let profile = unordered[i];
    assert(unordered.contains(profile));
    order::lemma_same_items(unordered, order::name_key::<Profile>(), profile);
    let all = resolved(global, project)->Ok_0.profiles;
    assert(all.contains(profile));
    let k = choose|k: int| 0 <= k < all.len() && all[k] == profile;
    assert(resolved(global, project)->Ok_0.profiles[k] == profile);
}

/// Which profile a run starts with: the project's choice where it makes one, else the global file's,
/// else the only profile there is.
pub proof fn law_default_comes_from_the_files(global: ConfigFile, project: Option<ConfigFile>)
    requires
        global.profiles.entries@.len() > 0,
        resolved(global, project) is Ok,
    ensures
        ({
            let own = match project {
                Some(f) => text::opt_view(f.default_profile),
                None => None,
            };
            let config = resolved(global, project)->Ok_0;
            &&& own is Some || global.default_profile is Some || config.profiles.len() == 1
            &&& comes_from(
                config.default_profile,
                own,
                text::opt_view(global.default_profile),
                config.profiles[0].name,
            )
        }),
{
}

/// The limits, the theme and the permissions: a limit is the project's where it sets one, else the
/// global file's, else built in; a theme is the one that is named; and what may run unasked is what
/// the global file lists, to the letter.
pub proof fn law_limits_and_theme_come_from_the_files(
    global: ConfigFile,
    project: Option<ConfigFile>,
)
    requires
        resolved(global, project) is Ok,
    ensures
        ({
            let config = resolved(global, project)->Ok_0;
            let timeout = match project {
                Some(f) => f.commands.timeout_secs,
                None => None,
            };
            let background = match project {
                Some(f) => f.commands.background_max_secs,
                None => None,
            };
            let own_theme = match project {
                Some(f) => text::opt_view(f.theme),
                None => None,
            };
            &&& comes_from(
                config.command_timeout_secs,
                timeout,
                global.commands.timeout_secs,
                DEFAULT_COMMAND_TIMEOUT_SECS,
            )
            &&& comes_from(
                config.background_max_secs,
                background,
                global.commands.background_max_secs,
                DEFAULT_BACKGROUND_MAX_SECS,
            )
            &&& own_theme is Some ==> Theme::parse_spec(own_theme->0) == Some(config.theme)
            &&& own_theme is None && global.theme is Some ==> Theme::parse_spec(global.theme->0@)
                == Some(config.theme)
            &&& own_theme is None && global.theme is None ==> config.theme == Theme::Default
            &&& config.allow_commands.len() == global.allow_commands@.len()
            &&& forall|i: int|
                0 <= i < config.allow_commands.len() ==> #[trigger] config.allow_commands[i]
                    == global.allow_commands@[i]@
        }),
{
}

/// The price of a model is the project's where it prices the model, else the global file's; a model
/// that neither prices has none. The currency goes the same way.
pub proof fn law_prices_come_from_the_files(
    global: ConfigFile,
    project: Option<ConfigFile>,
    model: Seq<char>,
)
    requires
        resolved(global, project) is Ok,
    ensures
        ({
            let prices = resolved(global, project)->Ok_0.prices;
            let own = match project {
                Some(f) => f.pricing.models.get_spec(model),
                None => None,
            };
            let own_currency = match project {
                Some(f) => text::opt_view(f.pricing.currency),
                None => None,
            };
            let lower = global.pricing.models.get_spec(model);
            &&& prices.models.dom().contains(model) <==> own is Some || lower is Some
            &&& own is Some ==> prices.models[model] == own->0
            &&& own is None && lower is Some ==> prices.models[model] == lower->0
            &&& own_currency is Some ==> prices.currency == own_currency
            &&& own_currency is None ==> prices.currency == text::opt_view(global.pricing.currency)
        }),
{
}

proof fn lemma_server_at(sections: Seq<(String, McpSection)>, i: int)
    requires
        servers_of(sections) is Ok,
        0 <= i < sections.len(),
    ensures
        servers_of(sections)->Ok_0.len() == sections.len(),
        server_of(sections[i].0@, sections[i].1) == Ok::<McpServerModel, Fault>(
            servers_of(sections)->Ok_0[i],
        ),
    decreases sections.len(),
{
    lemma_server_count(sections);
    if i < sections.len() - 1 {
        lemma_server_at(sections.drop_last(), i);
    }
}

/// Every server section becomes a server of the same name: a remote one with its URL and headers, any
/// other with its command, its arguments in order and its environment. It is enabled unless the
/// section says otherwise, and trusted exactly where the section says so.
pub proof fn law_every_server_section_becomes_a_server(
    global: ConfigFile,
    project: Option<ConfigFile>,
    i: int,
)
    requires
        0 <= i < global.mcp.entries@.len(),
        resolved(global, project) is Ok,
    ensures
        ({
            let section = global.mcp.entries@[i].1;
            exists|k: int|
                0 <= k < resolved(global, project)->Ok_0.mcp_servers.len() && ({
                    let server = #[trigger] resolved(global, project)->Ok_0.mcp_servers[k];
                    &&& server.name == global.mcp.entries@[i].0@
                    &&& server.trusted == section.trusted
                    &&& server.enabled == (section.enabled != Some(false))
                    &&& section.kind is None ==> server.url is None
                    &&& section.kind matches Some(kind) ==> (kind@ == "remote"@ ==> server.url is Some)
                    &&& section.kind is None || server.url is None ==> {
                        &&& section.command matches Some(command) && server.command == command@
                        &&& server.args.len() == section.args@.len()
                        &&& forall|j: int|
                            0 <= j < server.args.len() ==> #[trigger] server.args[j]
                                == section.args@[j]@
                        &&& forall|name: Seq<char>|
                            section.environment.get_spec(name) is Some ==> #[trigger] server.env.dom().contains(
                                name,
                            ) && server.env[name] == section.environment.get_spec(name)->0@
                        &&& forall|name: Seq<char>| #[trigger]
                            server.env.dom().contains(name) ==> section.environment.get_spec(name)
                                is Some || section.env.get_spec(name) is Some
                        &&& forall|name: Seq<char>|
                            section.environment.get_spec(name) is None && section.env.get_spec(name)
                                is Some ==> #[trigger] server.env.dom().contains(name)
                                && server.env[name] == section.env.get_spec(name)->0@
                    }
                    &&& server.url is Some ==> {
                        &&& section.url matches Some(url) && server.url->0 == url@
                        &&& forall|name: Seq<char>|
                            section.headers.get_spec(name) is Some ==> #[trigger] server.headers.dom().contains(
                                name,
                            ) && server.headers[name] == section.headers.get_spec(name)->0@
                    }
                })
        }),
{
    let sections = global.mcp.entries@;
    let unordered = servers_of(sections)->Ok_0;
    lemma_server_at(sections, i);
    let server = unordered[i];
    assert(unordered.contains(server));
    order::lemma_same_items(unordered, order::name_key::<McpServer>(), server);
    let all = resolved(global, project)->Ok_0.mcp_servers;
    assert(all.contains(server));
    let k = choose|k: int| 0 <= k < all.len() && all[k] == server;
    assert(resolved(global, project)->Ok_0.mcp_servers[k] == server);
}

} // verus!
