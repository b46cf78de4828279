//! Configuration: what a `kamui.toml` may say, and how the global file and a project file make up
//! the settings of a run.
use crate::order::Named;
use crate::table::Table;
use crate::text;
use crate::text::{cat3, cat5, copy_opt, same};
use vstd::prelude::*;
use vstd::string::*;

verus! {

broadcast use crate::text::group_views;

/// The name of the configuration file.
pub const CONFIG_FILE: &'static str = "kamui.toml";

/// The base URL of a provider that names none.
pub const DEFAULT_BASE_URL: &'static str = "https://api.openai.com/v1";

/// The name of the profile that the flat form gives.
pub const DEFAULT_PROFILE_NAME: &'static str = "default";

/// How long a command may run in the foreground where `[commands].timeout_secs` is unset.
pub const DEFAULT_COMMAND_TIMEOUT_SECS: u64 = 30;

/// How long a background job may live where `[commands].background_max_secs` is unset. A backstop
/// against runaway processes, not a limit meant for legitimate long-running commands.
pub const DEFAULT_BACKGROUND_MAX_SECS: u64 = 1800;

/// What a new configuration file holds.
pub const TEMPLATE: &'static str = "\
# Kamui configuration (global). This file may contain your API key.
#
# A project-level kamui.toml in a repository root may override `model`,
# `context_window`, `provider.base_url`, and `default_profile`, but must
# NOT contain an api_key.

# Required: the model identifier your provider expects.
model = \"gpt-4o\"

# Optional: context window size. Enables context-percentage reporting.
# context_window = 128000

[provider]
# OpenAI-compatible base URL. Defaults to https://api.openai.com/v1 if omitted.
base_url = \"https://api.openai.com/v1\"

# Required: your provider API key.
api_key = \"\"

# Optional: set to false if the model rejects the `tools` field (many small local
# models). Kamui then chats without offering tools. Defaults to true.
# tools = true

# Orvix Coding Plan (internal): POST /coding/completions with sticky session_id.
# Keep base_url on /v1 so /models still works; override only the chat path.
# completions_path = \"/coding/completions\"
# send_session_id = true

# Alternatively, define named profiles and switch between them at runtime with
# `/model <name>`. When profiles are present the flat settings above are ignored.
# Share one API key across many models by defining a [providers.*] block and
# referencing it from each profile with `provider = \"<name>\"`.
#
# default_profile = \"gpt4o\"
#
# [providers.openai]
# base_url = \"https://api.openai.com/v1\"
# api_key = \"sk-...\"
#
# [providers.ollama]
# base_url = \"http://localhost:11434/v1\"
# api_key = \"ollama\"
#
# [profiles.gpt4o]
# provider = \"openai\"
# model = \"gpt-4o\"
#
# [profiles.codeqwen]
# provider = \"ollama\"
# model = \"codeqwen:latest\"
# tools = false          # many small local models do not support tools

# MCP servers are launched as child processes and their tools are offered to the
# model alongside the built-in ones. Global-only: a project kamui.toml may not
# define these. Each call asks for approval unless the server is marked trusted.
#
# [mcp.filesystem]
# command = \"npx\"
# args = [\"-y\", \"@modelcontextprotocol/server-filesystem\", \".\"]
#
# [mcp.excel]
# command = \"uvx\"
# args = [\"mcp-excel\"]
# trusted = true         # skip the per-call approval for this server
# enabled = false        # opt out without deleting (opencode-compatible)
# [mcp.excel.env]        # extra environment for the child process
# KEY = \"value\"

# Commands run_command may run without asking for approval. Exact match only (after
# trimming), so this never widens beyond exactly what is listed. Global-only, like
# api_key: a project kamui.toml may not define this.
#
# [permissions]
# allow_commands = [\"git status\", \"git diff\", \"cargo check\"]

# run_command timeout policy. Not security-relevant, so a project kamui.toml may
# override these. timeout_secs bounds a normal (foreground) command; background_max_secs
# is a safety cap on a background: true job's total lifetime, not a limit meant to
# constrain a legitimately long-running command.
#
# [commands]
# timeout_secs = 30
# background_max_secs = 1800

# Theme: default | catppuccin | ayu-dark | ayuppuccin (also per-project override)
# theme = \"ayuppuccin\"

# Optional: an embedding-capable model on this same provider, enabling /index and the
# search_code tool. Not every model/endpoint offers an embeddings API; omit this to
# leave semantic search unavailable.
# [provider]
# embedding_model = \"text-embedding-3-small\"

# Optional: what each model costs, so /stats and /usage can report spend as well as
# tokens. Prices are per MILLION tokens, the unit provider pricing pages use, and input
# and output are separate rates. Kamui does not know or convert currencies: the numbers
# are in whatever currency you typed, and `currency` is only the symbol printed with
# them. Models you do not price are reported as \"unpriced\", never as free. Prices are
# not secret, so a project kamui.toml may set them too.
#
# [pricing]
# currency = \"$\"
#
# [pricing.models.\"gpt-4o\"]
# input_per_million = 2.50
# output_per_million = 10.00
";

// ---------------------------------------------------------------------------------------------
// What a file says
// ---------------------------------------------------------------------------------------------

/// What one model costs per million tokens, each price as the bits of a double.
#[derive(Clone, Copy, Debug, PartialEq, Eq, Structural)]
pub struct ModelPrice {
    pub input_per_million: u64,
    pub output_per_million: u64,
}

/// `[pricing]`.
#[derive(Debug)]
pub struct PricingSection {
    /// The label printed with amounts.
    pub currency: Option<String>,
    /// Model identifier to price.
    pub models: Table<ModelPrice>,
}

/// `[commands]`.
#[derive(Clone, Copy, Debug)]
pub struct CommandsSection {
    pub timeout_secs: Option<u64>,
    pub background_max_secs: Option<u64>,
}

/// `[mcp.<name>]`.
#[derive(Debug)]
pub struct McpSection {
    pub enabled: Option<bool>,
    pub kind: Option<String>,
    pub command: Option<String>,
    pub args: Vec<String>,
    pub trusted: bool,
    pub env: Table<String>,
    pub environment: Table<String>,
    pub url: Option<String>,
    pub headers: Table<String>,
}

/// `[provider]` and `[providers.<name>]`.
#[derive(Debug)]
pub struct ProviderSection {
    pub base_url: Option<String>,
    pub api_key: Option<String>,
    pub tools: Option<bool>,
    pub embedding_model: Option<String>,
    pub completions_path: Option<String>,
    pub send_session_id: Option<bool>,
}

/// `[profiles.<name>]`.
#[derive(Debug)]
pub struct ProfileSection {
    /// The `[providers.*]` block to inherit from.
    pub provider: Option<String>,
    pub model: Option<String>,
    pub base_url: Option<String>,
    pub api_key: Option<String>,
    pub context_window: Option<u64>,
    pub tools: Option<bool>,
    pub embedding_model: Option<String>,
    pub completions_path: Option<String>,
    pub send_session_id: Option<bool>,
}

/// One `kamui.toml`. Every field is optional so that a project file can be partial.
#[derive(Debug)]
pub struct ConfigFile {
    pub model: Option<String>,
    pub context_window: Option<u64>,
    pub provider: Option<ProviderSection>,
    pub default_profile: Option<String>,
    pub theme: Option<String>,
    pub providers: Table<ProviderSection>,
    pub profiles: Table<ProfileSection>,
    pub mcp: Table<McpSection>,
    /// `[permissions].allow_commands`.
    pub allow_commands: Vec<String>,
    pub commands: CommandsSection,
    pub pricing: PricingSection,
}

impl McpSection {
    /// The tables of the section hold no key twice.
    pub open spec fn wf(&self) -> bool {
        self.env.wf() && self.environment.wf() && self.headers.wf()
    }
}

impl ConfigFile {
    /// The tables of the file hold no key twice.
    pub open spec fn wf(&self) -> bool {
        &&& self.providers.wf()
        &&& self.profiles.wf()
        &&& self.mcp.wf()
        &&& self.pricing.models.wf()
        &&& forall|i: int| 0 <= i < self.mcp.entries@.len() ==> (#[trigger] self.mcp.entries@[i]).1.wf()
    }
}

// ---------------------------------------------------------------------------------------------
// What a run works with
// ---------------------------------------------------------------------------------------------

/// One provider and model that the user can run under.
#[derive(Debug)]
pub struct Profile {
    pub name: String,
    pub model: String,
    pub base_url: String,
    pub api_key: String,
    pub context_window: Option<u64>,
    /// Whether to offer tools to this model.
    pub tools: bool,
    /// The embedding-capable model on the same provider; without one there is no semantic search.
    pub embedding_model: Option<String>,
    /// The path or URL of chat completions, where it is not the usual one.
    pub completions_path: Option<String>,
    /// Whether to send the session id along with a request.
    pub send_session_id: bool,
}

/// What a [`Profile`] stands for.
#[verifier::ext_equal]
pub struct ProfileModel {
    pub name: Seq<char>,
    pub model: Seq<char>,
    pub base_url: Seq<char>,
    pub api_key: Seq<char>,
    pub context_window: Option<u64>,
    pub tools: bool,
    pub embedding_model: Option<Seq<char>>,
    pub completions_path: Option<Seq<char>>,
    pub send_session_id: bool,
}

impl View for Profile {
    type V = ProfileModel;

    open spec fn view(&self) -> ProfileModel {
        ProfileModel {
            name: self.name@,
            model: self.model@,
            base_url: self.base_url@,
            api_key: self.api_key@,
            context_window: self.context_window,
            tools: self.tools,
            embedding_model: text::opt_view(self.embedding_model),
            completions_path: text::opt_view(self.completions_path),
            send_session_id: self.send_session_id,
        }
    }
}

impl Named for Profile {
    open spec fn name_in(model: ProfileModel) -> Seq<char> {
        model.name
    }

    fn name_text(&self) -> (r: &str) {
        self.name.as_str()
    }
}

impl Profile {
    /// A copy of the profile.
    pub fn copy(&self) -> (r: Profile)
        ensures
            r@ == self@,
    {
        Profile {
            name: self.name.clone(),
            model: self.model.clone(),
            base_url: self.base_url.clone(),
            api_key: self.api_key.clone(),
            context_window: self.context_window,
            tools: self.tools,
            embedding_model: copy_opt(&self.embedding_model),
            completions_path: copy_opt(&self.completions_path),
            send_session_id: self.send_session_id,
        }
    }
}

/// A server that Kamui launches, or reaches by URL, for its tools.
#[derive(Debug)]
pub struct McpServer {
    pub name: String,
    pub command: String,
    pub args: Vec<String>,
    /// Whether the server's tools run without approval per call.
    pub trusted: bool,
    pub env: Table<String>,
    pub url: Option<String>,
    pub headers: Table<String>,
    /// Whether the server takes part in the session. A disabled server is kept so that it can be
    /// listed and enabled again.
    pub enabled: bool,
}

/// What an [`McpServer`] stands for.
#[verifier::ext_equal]
pub struct McpServerModel {
    pub name: Seq<char>,
    pub command: Seq<char>,
    pub args: Seq<Seq<char>>,
    pub trusted: bool,
    pub env: Map<Seq<char>, Seq<char>>,
    pub url: Option<Seq<char>>,
    pub headers: Map<Seq<char>, Seq<char>>,
    pub enabled: bool,
}

/// What a table of texts maps each key to.
pub open spec fn text_map(t: Table<String>) -> Map<Seq<char>, Seq<char>> {
    Map::new(|k: Seq<char>| t.get_spec(k) is Some, |k: Seq<char>| t.get_spec(k)->0@)
}

/// What a table of prices maps each model to.
pub open spec fn price_map(t: Table<ModelPrice>) -> Map<Seq<char>, ModelPrice> {
    Map::new(|k: Seq<char>| t.get_spec(k) is Some, |k: Seq<char>| t.get_spec(k)->0)
}

impl View for McpServer {
    type V = McpServerModel;

    open spec fn view(&self) -> McpServerModel {
        McpServerModel {
            name: self.name@,
            command: self.command@,
            args: text::views(self.args@),
            trusted: self.trusted,
            env: text_map(self.env),
            url: text::opt_view(self.url),
            headers: text_map(self.headers),
            enabled: self.enabled,
        }
    }
}

impl Named for McpServer {
    open spec fn name_in(model: McpServerModel) -> Seq<char> {
        model.name
    }

    fn name_text(&self) -> (r: &str) {
        self.name.as_str()
    }
}

/// The look of the terminal interface.
#[derive(Clone, Copy, Debug, PartialEq, Eq, Structural)]
pub enum Theme {
    Default,
    Catppuccin,
    AyuDark,
    Ayuppuccin,
}

impl Theme {
    /// The name of the theme in a configuration file.
    pub open spec fn name_spec(self) -> Seq<char> {
        match self {
            Theme::Default => "default"@,
            Theme::Catppuccin => "catppuccin"@,
            Theme::AyuDark => "ayu-dark"@,
            Theme::Ayuppuccin => "ayuppuccin"@,
        }
    }

    /// The name of the theme in a configuration file.
    pub fn name(self) -> (r: &'static str)
        ensures
            r@ == self.name_spec(),
    {
        match self {
            Theme::Default => "default",
            Theme::Catppuccin => "catppuccin",
            Theme::AyuDark => "ayu-dark",
            Theme::Ayuppuccin => "ayuppuccin",
        }
    }

    /// The theme of a name.
    pub open spec fn parse_spec(name: Seq<char>) -> Option<Theme> {
        if name == "default"@ {
            Some(Theme::Default)
        } else if name == "catppuccin"@ {
            Some(Theme::Catppuccin)
        } else if name == "ayu-dark"@ {
            Some(Theme::AyuDark)
        } else if name == "ayuppuccin"@ {
            Some(Theme::Ayuppuccin)
        } else {
            None
        }
    }

    /// The theme of a name.
    pub fn parse(name: &str) -> (r: Option<Theme>)
        ensures
            r == Self::parse_spec(name@),
    {
        if same(name, "default") {
            Some(Theme::Default)
        } else if same(name, "catppuccin") {
            Some(Theme::Catppuccin)
        } else if same(name, "ayu-dark") {
            Some(Theme::AyuDark)
        } else if same(name, "ayuppuccin") {
            Some(Theme::Ayuppuccin)
        } else {
            None
        }
    }
}

/// A theme is read back from its own name.
pub proof fn law_theme_round_trip(theme: Theme)
    ensures
        Theme::parse_spec(theme.name_spec()) == Some(theme),
{
    reveal_strlit("default");
    reveal_strlit("catppuccin");
    reveal_strlit("ayu-dark");
    reveal_strlit("ayuppuccin");
    assert("default"@.len() == 7);
    assert("catppuccin"@.len() == 10);
    assert("ayu-dark"@.len() == 8);
    assert("ayuppuccin"@.len() == 10);
    assert("catppuccin"@[0] != "ayuppuccin"@[0]);
}

/// Prices per model, for cost reporting.
#[derive(Debug)]
pub struct Prices {
    pub currency: Option<String>,
    pub models: Table<ModelPrice>,
}

/// What [`Prices`] stand for.
#[verifier::ext_equal]
pub struct PricesModel {
    pub currency: Option<Seq<char>>,
    pub models: Map<Seq<char>, ModelPrice>,
}

impl View for Prices {
    type V = PricesModel;

    open spec fn view(&self) -> PricesModel {
        PricesModel { currency: text::opt_view(self.currency), models: price_map(self.models) }
    }
}

impl Prices {
    /// Whether nothing is priced.
    pub fn is_empty(&self) -> (r: bool)
        ensures
            r == (self.models.entries@.len() == 0),
    {
        self.models.is_empty()
    }
}

/// Everything a run is configured with: every profile, and which of them is the default.
#[derive(Debug)]
pub struct Config {
    pub profiles: Vec<Profile>,
    pub default_profile: String,
    pub mcp_servers: Vec<McpServer>,
    /// Commands that run without approval. From the global file only.
    pub allow_commands: Vec<String>,
    pub command_timeout_secs: u64,
    pub background_max_secs: u64,
    pub prices: Prices,
    pub theme: Theme,
}

/// What a [`Config`] stands for.
#[verifier::ext_equal]
pub struct ConfigModel {
    pub profiles: Seq<ProfileModel>,
    pub default_profile: Seq<char>,
    pub mcp_servers: Seq<McpServerModel>,
    pub allow_commands: Seq<Seq<char>>,
    pub command_timeout_secs: u64,
    pub background_max_secs: u64,
    pub prices: PricesModel,
    pub theme: Theme,
}

impl View for Config {
    type V = ConfigModel;

    open spec fn view(&self) -> ConfigModel {
        ConfigModel {
            profiles: text::views(self.profiles@),
            default_profile: self.default_profile@,
            mcp_servers: text::views(self.mcp_servers@),
            allow_commands: text::views(self.allow_commands@),
            command_timeout_secs: self.command_timeout_secs,
            background_max_secs: self.background_max_secs,
            prices: self.prices@,
            theme: self.theme,
        }
    }
}

/// Whether a profile has the given name.
pub open spec fn is_named(profiles: Seq<ProfileModel>, name: Seq<char>) -> bool {
    exists|i: int| 0 <= i < profiles.len() && (#[trigger] profiles[i]).name == name
}

/// The first profile with the given name.
pub open spec fn find_in(profiles: Seq<ProfileModel>, name: Seq<char>) -> Option<ProfileModel>
    decreases profiles.len(),
{
    if profiles.len() == 0 {
        None
    } else if profiles[0].name == name {
        Some(profiles[0])
    } else {
        find_in(profiles.skip(1), name)
    }
}

pub proof fn lemma_find_in(profiles: Seq<ProfileModel>, name: Seq<char>)
    ensures
        find_in(profiles, name) is Some <==> is_named(profiles, name),
        find_in(profiles, name) matches Some(p) ==> p.name == name && profiles.contains(p),
    decreases profiles.len(),
{
    if profiles.len() > 0 {
        let rest = profiles.skip(1);
        lemma_find_in(rest, name);
        if profiles[0].name != name {
            if is_named(profiles, name) {
                let i = choose|i: int|
                    0 <= i < profiles.len() && (#[trigger] profiles[i]).name == name;
                assert(rest[i - 1] == profiles[i]);
            }
            if is_named(rest, name) {
                let i = choose|i: int| 0 <= i < rest.len() && (#[trigger] rest[i]).name == name;
                assert(rest[i] == profiles[i + 1]);
            }
            if find_in(rest, name) is Some {
                let p = find_in(rest, name)->0;
                let i = choose|i: int| 0 <= i < rest.len() && rest[i] == p;
                assert(profiles[i + 1] == p);
            }
        }
    }
}

impl ConfigModel {
    /// The default profile is one of the profiles.
    pub open spec fn wf(self) -> bool {
        is_named(self.profiles, self.default_profile)
    }
}

impl Config {
    /// The profile of a name.
    pub fn find(&self, name: &str) -> (r: Option<&Profile>)
        ensures
            match r {
                Some(profile) => find_in(self@.profiles, name@) == Some(profile@),
                None => find_in(self@.profiles, name@) is None,
            },
            r is Some <==> is_named(self@.profiles, name@),
    {
        let ghost all = self@.profiles;
        let mut i: usize = 0;
        assert(all.skip(0) =~= all);
        proof {
            lemma_find_in(all, name@);
        }
        while i < self.profiles.len()
            invariant
                i <= self.profiles.len(),
                all == text::views(self.profiles@),
                find_in(all, name@) == find_in(all.skip(i as int), name@),
                find_in(all, name@) is Some <==> is_named(all, name@),
            decreases self.profiles.len() - i,
        {
            if same(self.profiles[i].name.as_str(), name) {
                return Some(&self.profiles[i]);
            }
            assert(all.skip(i as int).skip(1) =~= all.skip(i + 1));
            i += 1;
        }
        None
    }

    /// The default profile.
    pub fn default(&self) -> (r: &Profile)
        requires
            self@.wf(),
        ensures
            find_in(self@.profiles, self@.default_profile) == Some(r@),
            r@.name == self@.default_profile,
    {
        proof {
            lemma_find_in(self@.profiles, self@.default_profile);
        }
        self.find(self.default_profile.as_str()).unwrap()
    }
}

/// The outcome of loading: settings to run with, or the file that the user has still to fill in.
#[derive(Debug)]
pub enum Loaded {
    Ready(Config),
    NeedsSetup(String),
}

// ---------------------------------------------------------------------------------------------
// What can be wrong
// ---------------------------------------------------------------------------------------------

/// Why the files make up no configuration. `T` is text: `String` in a value, `Seq<char>` in its
/// model.
#[derive(Debug)]
pub enum ConfigError<T> {
    ProjectKey,
    ProjectMcp,
    ProjectPermissions,
    ProjectProfiles,
    BadPrice,
    RemoteWithoutUrl { server: T },
    MissingCommand { server: T },
    UnknownTheme { name: T },
    NoModel,
    NoKey,
    UnknownProvider { profile: T, provider: T },
    ProfileWithoutModel { profile: T },
    ProfileWithoutKey { profile: T },
    NoDefaultProfile,
    UnknownDefault { name: T },
    AdvancedProfiles { path: T },
}

impl View for ConfigError<String> {
    type V = ConfigError<Seq<char>>;

    open spec fn view(&self) -> ConfigError<Seq<char>> {
        match self {
            ConfigError::ProjectKey => ConfigError::ProjectKey,
            ConfigError::ProjectMcp => ConfigError::ProjectMcp,
            ConfigError::ProjectPermissions => ConfigError::ProjectPermissions,
            ConfigError::ProjectProfiles => ConfigError::ProjectProfiles,
            ConfigError::BadPrice => ConfigError::BadPrice,
            ConfigError::RemoteWithoutUrl { server } => ConfigError::RemoteWithoutUrl {
                server: server@,
            },
            ConfigError::MissingCommand { server } => ConfigError::MissingCommand {
                server: server@,
            },
            ConfigError::UnknownTheme { name } => ConfigError::UnknownTheme { name: name@ },
            ConfigError::NoModel => ConfigError::NoModel,
            ConfigError::NoKey => ConfigError::NoKey,
            ConfigError::UnknownProvider { profile, provider } => ConfigError::UnknownProvider {
                profile: profile@,
                provider: provider@,
            },
            ConfigError::ProfileWithoutModel { profile } => ConfigError::ProfileWithoutModel {
                profile: profile@,
            },
            ConfigError::ProfileWithoutKey { profile } => ConfigError::ProfileWithoutKey {
                profile: profile@,
            },
            ConfigError::NoDefaultProfile => ConfigError::NoDefaultProfile,
            ConfigError::UnknownDefault { name } => ConfigError::UnknownDefault { name: name@ },
            ConfigError::AdvancedProfiles { path } => ConfigError::AdvancedProfiles { path: path@ },
        }
    }
}

impl ConfigError<Seq<char>> {
    /// What the user reads.
    pub open spec fn words(self) -> Seq<char> {
        match self {
            ConfigError::ProjectKey =>
                "a project kamui.toml must not contain an api_key; keep secrets in the global config"@,
            ConfigError::ProjectMcp =>
                "a project kamui.toml must not define [mcp.*] servers; declare them in the global config"@,
            ConfigError::ProjectPermissions =>
                "a project kamui.toml must not define [permissions]; declare allow_commands in the global config"@,
            ConfigError::ProjectProfiles =>
                "a project kamui.toml must not define [profiles.*] or [providers.*]; they are resolved from the global config only. Use `default_profile` here to pin this project to one of the profiles defined there."@,
            ConfigError::BadPrice => "model prices must be finite, non-negative numbers"@,
            ConfigError::RemoteWithoutUrl { server } => "mcp server '"@ + server
                + "' is remote but has no url"@,
            ConfigError::MissingCommand { server } => "mcp server '"@ + server
                + "' is missing a command"@,
            ConfigError::UnknownTheme { name } => "unknown theme '"@ + name + "'"@,
            ConfigError::NoModel => "model is not configured; set `model` in your kamui.toml"@,
            ConfigError::NoKey =>
                "api_key is not set; add it under [provider] in the global kamui.toml"@,
            ConfigError::UnknownProvider { profile, provider } => "profile '"@ + profile
                + "' references unknown provider '"@ + provider + "'"@,
            ConfigError::ProfileWithoutModel { profile } => "profile '"@ + profile
                + "' is missing a model"@,
            ConfigError::ProfileWithoutKey { profile } => "profile '"@ + profile
                + "' has no api_key (set it on the profile or its provider)"@,
            ConfigError::NoDefaultProfile =>
                "multiple profiles are defined; set `default_profile` to choose one"@,
            ConfigError::UnknownDefault { name } => "default_profile '"@ + name
                + "' does not match any [profiles.*] entry"@,
            ConfigError::AdvancedProfiles { path } =>
                "interactive setup cannot replace an advanced profiles configuration; edit "@ + path
                + " manually"@,
        }
    }
}

impl ConfigError<String> {
    /// What the user reads.
    pub fn message(&self) -> (r: String)
        ensures
            r@ == self@.words(),
    {
        match self {
            ConfigError::ProjectKey =>
                "a project kamui.toml must not contain an api_key; keep secrets in the global config".to_owned(),
            ConfigError::ProjectMcp =>
                "a project kamui.toml must not define [mcp.*] servers; declare them in the global config".to_owned(),
            ConfigError::ProjectPermissions =>
                "a project kamui.toml must not define [permissions]; declare allow_commands in the global config".to_owned(),
            ConfigError::ProjectProfiles =>
                "a project kamui.toml must not define [profiles.*] or [providers.*]; they are resolved from the global config only. Use `default_profile` here to pin this project to one of the profiles defined there.".to_owned(),
            ConfigError::BadPrice => "model prices must be finite, non-negative numbers".to_owned(),
            ConfigError::RemoteWithoutUrl { server } => cat3(
                "mcp server '",
                server.as_str(),
                "' is remote but has no url",
            ),
            ConfigError::MissingCommand { server } => cat3(
                "mcp server '",
                server.as_str(),
                "' is missing a command",
            ),
            ConfigError::UnknownTheme { name } => cat3("unknown theme '", name.as_str(), "'"),
            ConfigError::NoModel =>
                "model is not configured; set `model` in your kamui.toml".to_owned(),
            ConfigError::NoKey =>
                "api_key is not set; add it under [provider] in the global kamui.toml".to_owned(),
            ConfigError::UnknownProvider { profile, provider } => cat5(
                "profile '",
                profile.as_str(),
                "' references unknown provider '",
                provider.as_str(),
                "'",
            ),
            ConfigError::ProfileWithoutModel { profile } => cat3(
                "profile '",
                profile.as_str(),
                "' is missing a model",
            ),
            ConfigError::ProfileWithoutKey { profile } => cat3(
                "profile '",
                profile.as_str(),
                "' has no api_key (set it on the profile or its provider)",
            ),
            ConfigError::NoDefaultProfile =>
                "multiple profiles are defined; set `default_profile` to choose one".to_owned(),
            ConfigError::UnknownDefault { name } => cat3(
                "default_profile '",
                name.as_str(),
                "' does not match any [profiles.*] entry",
            ),
            ConfigError::AdvancedProfiles { path } => cat3(
                "interactive setup cannot replace an advanced profiles configuration; edit ",
                path.as_str(),
                " manually",
            ),
        }
    }
}

/// Why a configuration is refused names the server, the theme, the profile or the file that is to blame.
#[verifier::rlimit(50)]
pub proof fn law_config_errors_name_what_is_wrong(
    server: Seq<char>,
    name: Seq<char>,
    profile: Seq<char>,
    provider: Seq<char>,
    path: Seq<char>,
)
    ensures
        text::stands_in((ConfigError::RemoteWithoutUrl { server }).words(), server),
        text::stands_in((ConfigError::MissingCommand { server }).words(), server),
        text::stands_in((ConfigError::UnknownTheme { name }).words(), name),
        text::stands_in((ConfigError::UnknownProvider { profile, provider }).words(), profile),
        text::stands_in((ConfigError::UnknownProvider { profile, provider }).words(), provider),
        text::stands_in((ConfigError::ProfileWithoutModel { profile }).words(), profile),
        text::stands_in((ConfigError::ProfileWithoutKey { profile }).words(), profile),
        text::stands_in((ConfigError::UnknownDefault { name }).words(), name),
        text::stands_in((ConfigError::AdvancedProfiles { path }).words(), path),
{
    broadcast use text::group_stands;

}

} // verus!
