use kamui::config::{
    CommandsSection, Config, ConfigFile, Loaded, McpSection, ModelPrice, PricingSection, Prices,
    ProfileSection, ProviderSection, Theme, DEFAULT_BACKGROUND_MAX_SECS, DEFAULT_BASE_URL,
    DEFAULT_COMMAND_TIMEOUT_SECS, TEMPLATE,
};
use kamui::profiles::{append_profile, free_name, taken_names};
use kamui::resolve::{
    declares_key, has_usable_configuration, loaded, resolve, resolve_flat, resolve_mcp_servers,
    resolve_prices, resolve_profiles,
};
use kamui::settings::{ensure_onboarding_supported, save_onboarding, save_theme, set_mcp_enabled};
use kamui::table::Table;

fn text_in(table: &toml::Table, key: &str) -> Option<String> {
    table.get(key).map(|value| value.as_str().unwrap().to_string())
}

fn flag_in(table: &toml::Table, key: &str) -> Option<bool> {
    table.get(key).map(|value| value.as_bool().unwrap())
}

fn number_in(table: &toml::Table, key: &str) -> Option<u64> {
    table.get(key).map(|value| value.as_integer().unwrap() as u64)
}

fn texts_in(table: &toml::Table, key: &str) -> Vec<String> {
    match table.get(key) {
        Some(value) => {
            let items = value.as_array().unwrap();
            items.iter().map(|item| item.as_str().unwrap().to_string()).collect()
        }
        None => Vec::new(),
    }
}

fn tables_in(table: &toml::Table, key: &str) -> Vec<(String, toml::Table)> {
    match table.get(key) {
        Some(value) => {
            let inner = value.as_table().unwrap();
            inner.iter().map(|(name, item)| (name.clone(), item.as_table().unwrap().clone())).collect()
        }
        None => Vec::new(),
    }
}

fn words_in(table: &toml::Table, key: &str) -> Table<String> {
    let mut words = Table::new();
    if let Some(value) = table.get(key) {
        for (name, item) in value.as_table().unwrap() {
            words.insert(name.clone(), item.as_str().unwrap().to_string());
        }
    }
    words
}

fn provider_of(table: &toml::Table) -> ProviderSection {
    ProviderSection {
        base_url: text_in(table, "base_url"),
        api_key: text_in(table, "api_key"),
        tools: flag_in(table, "tools"),
        embedding_model: text_in(table, "embedding_model"),
        completions_path: text_in(table, "completions_path"),
        send_session_id: flag_in(table, "send_session_id"),
    }
}

fn profile_of(table: &toml::Table) -> ProfileSection {
    ProfileSection {
        provider: text_in(table, "provider"),
        model: text_in(table, "model"),
        base_url: text_in(table, "base_url"),
        api_key: text_in(table, "api_key"),
        context_window: number_in(table, "context_window"),
        tools: flag_in(table, "tools"),
        embedding_model: text_in(table, "embedding_model"),
        completions_path: text_in(table, "completions_path"),
        send_session_id: flag_in(table, "send_session_id"),
    }
}

fn mcp_of(table: &toml::Table) -> McpSection {
    McpSection {
        enabled: flag_in(table, "enabled"),
        kind: text_in(table, "type"),
        command: text_in(table, "command"),
        args: texts_in(table, "args"),
        trusted: flag_in(table, "trusted").unwrap_or(false),
        env: words_in(table, "env"),
        environment: words_in(table, "environment"),
        url: text_in(table, "url"),
        headers: words_in(table, "headers"),
    }
}

fn pricing_of(table: &toml::Table) -> PricingSection {
    let mut models = Table::new();
    for (name, item) in tables_in(table, "models") {
        models.insert(
            name,
            ModelPrice {
                input_per_million: item["input_per_million"].as_float().unwrap().to_bits(),
                output_per_million: item["output_per_million"].as_float().unwrap().to_bits(),
            },
        );
    }
    PricingSection { currency: text_in(table, "currency"), models }
}

fn file(text: &str) -> ConfigFile {
    let table: toml::Table = toml::from_str(text).unwrap();
    let section = |key: &str| table.get(key).map(|value| value.as_table().unwrap().clone());
    let mut providers = Table::new();
    for (name, item) in tables_in(&table, "providers") {
        providers.insert(name, provider_of(&item));
    }
    let mut profiles = Table::new();
    for (name, item) in tables_in(&table, "profiles") {
        profiles.insert(name, profile_of(&item));
    }
    let mut mcp = Table::new();
    for (name, item) in tables_in(&table, "mcp") {
        mcp.insert(name, mcp_of(&item));
    }
    let commands = section("commands").unwrap_or_default();
    ConfigFile {
        model: text_in(&table, "model"),
        context_window: number_in(&table, "context_window"),
        provider: section("provider").map(|item| provider_of(&item)),
        default_profile: text_in(&table, "default_profile"),
        theme: text_in(&table, "theme"),
        providers,
        profiles,
        mcp,
        allow_commands: texts_in(&section("permissions").unwrap_or_default(), "allow_commands"),
        commands: CommandsSection {
            timeout_secs: number_in(&commands, "timeout_secs"),
            background_max_secs: number_in(&commands, "background_max_secs"),
        },
        pricing: pricing_of(&section("pricing").unwrap_or_default()),
    }
}

fn refused(global: ConfigFile, project: Option<ConfigFile>) -> String {
    resolve(global, project).unwrap_err().message()
}

fn cost(prices: &Prices, model: &str, input: i64, output: i64) -> String {
    let price = prices.models.get(model).unwrap();
    let sum = f64::from_bits(price.input_per_million) * input as f64 / 1_000_000.0
        + f64::from_bits(price.output_per_million) * output as f64 / 1_000_000.0;
    format!("{}{sum:.4}", prices.currency.as_deref().unwrap_or("$"))
}

#[test]
fn orvix_coding_provider_inherits_completions_path_and_session_flag() {
    let global = file(
        r#"
default_profile = "flash"
[providers.orvix-coding]
base_url = "https://api.orvix.id/v1"
api_key = "sk-test"
completions_path = "/coding/completions"
send_session_id = true
[profiles.flash]
provider = "orvix-coding"
model = "orvix/deepseek-v4-flash"
"#,
    );
    let profile = resolve(global, None).unwrap().default().copy();
    assert_eq!(profile.base_url, "https://api.orvix.id/v1");
    assert_eq!(profile.completions_path.as_deref(), Some("/coding/completions"));
    assert!(profile.send_session_id);
}

#[test]
fn a_project_file_may_not_define_profiles_or_providers() {
    let global = file(
        r#"
default_profile = "a"
[profiles.a]
model = "m"
api_key = "k"
"#,
    );
    let project = file(
        r#"
[profiles.dead]
model = "nothing"
"#,
    );

    let text = refused(global, Some(project));
    assert!(text.contains("[profiles.*]"), "{text}");
    assert!(text.contains("default_profile"), "it points at what does work here: {text}");
}

#[test]
fn a_project_file_may_still_pin_the_default_profile() {
    let global = file(
        r#"
default_profile = "a"
[profiles.a]
model = "m"
api_key = "k"
[profiles.b]
model = "n"
api_key = "k"
"#,
    );
    let project = file(r#"default_profile = "b""#);

    let config = resolve(global, Some(project)).expect("pinning is allowed");
    assert_eq!(config.default().name, "b");
}

#[test]
fn setup_detection_requires_both_model_and_key() {
    assert!(!has_usable_configuration(&file("model = \"gpt-5\""), None));
    assert!(!has_usable_configuration(&file("[provider]\napi_key = \"sk-1\""), None));
    assert!(has_usable_configuration(
        &file("model = \"gpt-5\"\n[provider]\napi_key = \"sk-1\""),
        None
    ));
}

#[test]
fn project_model_completes_a_global_key_only_config() {
    let global = file("[provider]\napi_key = \"sk-1\"");
    let project = file("model = \"gpt-5\"");

    assert!(has_usable_configuration(&global, Some(&project)));
}

#[test]
fn a_new_configuration_file_has_still_to_be_filled_in() {
    assert!(!has_usable_configuration(&file(TEMPLATE), None));
}

#[test]
fn loading_asks_for_setup_until_the_files_hold_enough() {
    let setup = |global: Option<ConfigFile>, project: Option<ConfigFile>| {
        match loaded("/cfg/kamui.toml", global, project) {
            Ok(Loaded::NeedsSetup(path)) => Some(path),
            _ => None,
        }
    };
    let path = Some("/cfg/kamui.toml".to_string());
    assert_eq!(setup(None, None), path);
    assert_eq!(setup(None, Some(file("model = \"gpt-5\""))), path);
    assert_eq!(setup(Some(file("model = \"gpt-5\"")), None), path);
    // What is wrong with a project file is not told before the global file is filled in.
    let keyed = || file("[provider]\napi_key = \"sk-2\"");
    assert_eq!(setup(Some(file("model = \"gpt-5\"")), Some(keyed())), path);

    let global = || file("model = \"gpt-5\"\n[provider]\napi_key = \"sk-1\"");
    match loaded("/cfg/kamui.toml", Some(global()), None) {
        Ok(Loaded::Ready(config)) => assert_eq!(config.default().model, "gpt-5"),
        other => panic!("{other:?}"),
    }
    let refused = loaded("/cfg/kamui.toml", Some(global()), Some(keyed())).unwrap_err();
    assert_eq!(refused.message(), resolve(global(), Some(keyed())).unwrap_err().message());
}

#[test]
fn onboarding_preserves_unrelated_global_settings() {
    let content =
        "context_window = 8000\n[provider]\ntools = false\n[mcp.files]\ncommand = \"server\"";

    let written = save_onboarding(
        "/tmp/kamui.toml",
        content,
        &file(content),
        "https://api.example.com/v1/",
        "sk-1",
        "gpt-5",
    )
    .unwrap();
    let saved = file(&written);

    assert_eq!(saved.model.as_deref(), Some("gpt-5"));
    assert_eq!(saved.context_window, Some(8000));
    let provider = saved.provider.unwrap();
    assert_eq!(provider.tools, Some(false));
    assert_eq!(provider.base_url.as_deref(), Some("https://api.example.com/v1"));
    assert_eq!(provider.api_key.as_deref(), Some("sk-1"));
    assert_eq!(saved.mcp.get("files").unwrap().command.as_deref(), Some("server"));
}

#[test]
fn onboarding_does_not_replace_advanced_profiles() {
    let content = "[profiles.main]\nmodel = \"gpt-5\"";

    let error = save_onboarding(
        "/tmp/kamui.toml",
        content,
        &file(content),
        "https://api.example.com/v1",
        "sk-1",
        "gpt-5",
    )
    .unwrap_err();

    assert!(error.message().contains("advanced profiles"));
    assert!(ensure_onboarding_supported("/tmp/kamui.toml", &file(content)).is_err());
    assert!(ensure_onboarding_supported("/tmp/kamui.toml", &file("model = \"m\"")).is_ok());
}

#[test]
fn onboarding_needs_a_file_that_can_be_edited() {
    let flat = file("");
    let broken = save_onboarding("/tmp/kamui.toml", "model = ", &flat, "u", "k", "m").unwrap_err();
    assert!(broken.message().contains("/tmp/kamui.toml"), "{}", broken.message());
    let odd = save_onboarding("/tmp/kamui.toml", "provider = 3", &flat, "u", "k", "m");
    assert!(odd.is_err());
}

#[test]
fn the_theme_is_saved_beside_everything_else() {
    let written = save_theme("model = \"m\"\n", "catppuccin").unwrap();
    let saved = file(&written);
    assert_eq!(saved.theme.as_deref(), Some("catppuccin"));
    assert_eq!(saved.model.as_deref(), Some("m"));
}

#[test]
fn servers_are_switched_on_and_off_in_the_file() {
    let off = set_mcp_enabled("[mcp.files]\ncommand = \"server\"\n", "files", false).unwrap();
    assert_eq!(file(&off).mcp.get("files").unwrap().enabled, Some(false));
    let on = set_mcp_enabled(&off, "files", true).unwrap();
    let saved = file(&on);
    assert_eq!(saved.mcp.get("files").unwrap().enabled, Some(true));
    assert_eq!(saved.mcp.get("files").unwrap().command.as_deref(), Some("server"));
    assert!(set_mcp_enabled("mcp = 1", "files", true).is_err());
    assert!(set_mcp_enabled("[mcp]\nfiles = 1", "files", true).is_err());
}

#[test]
fn pricing_is_absent_unless_it_is_configured() {
    let config =
        resolve(file("model = \"gpt-5\"\n[provider]\napi_key = \"sk-1\""), None).unwrap();

    assert!(config.prices.is_empty());
}

#[test]
fn a_project_file_may_price_models_and_override_one_globally_priced() {
    let global = file(
        "model = \"gpt-5\"\n[provider]\napi_key = \"sk-1\"\n\
         [pricing]\ncurrency = \"$\"\n\
         [pricing.models.\"gpt-5\"]\ninput_per_million = 1.0\noutput_per_million = 2.0",
    );
    let project = file(
        "[pricing.models.\"gpt-5\"]\ninput_per_million = 3.0\noutput_per_million = 4.0\n\
         [pricing.models.\"codeqwen:latest\"]\ninput_per_million = 0.0\noutput_per_million = 0.0",
    );

    let prices = resolve(global, Some(project)).unwrap().prices;

    // The project file wins for the model it restates, and adds one the global file never named.
    assert_eq!(cost(&prices, "gpt-5", 1_000_000, 0), "$3.0000");
    assert_eq!(cost(&prices, "codeqwen:latest", 1_000_000, 0), "$0.0000");
}

#[test]
fn an_impossible_price_is_rejected_rather_than_reported() {
    let text = refused(
        file(
            "model = \"gpt-5\"\n[provider]\napi_key = \"sk-1\"\n\
             [pricing.models.\"gpt-5\"]\ninput_per_million = -1.0\noutput_per_million = 1.0",
        ),
        None,
    );

    assert!(text.contains("non-negative"));
    for bad in ["nan", "inf", "-inf"] {
        let text = refused(
            file(&format!(
                "model = \"gpt-5\"\n[provider]\napi_key = \"sk-1\"\n\
                 [pricing.models.\"gpt-5\"]\ninput_per_million = 1.0\noutput_per_million = {bad}"
            )),
            None,
        );
        assert!(text.contains("non-negative"), "{bad}: {text}");
    }
}

#[test]
fn resolves_a_flat_file_with_defaults() {
    let config =
        resolve(file("model = \"gpt-5\"\n[provider]\napi_key = \"sk-1\""), None).unwrap();

    assert_eq!(config.profiles.len(), 1);
    let profile = config.default();
    assert_eq!(profile.name, "default");
    assert_eq!(profile.model, "gpt-5");
    assert_eq!(profile.api_key, "sk-1");
    assert_eq!(profile.base_url, DEFAULT_BASE_URL);
    assert_eq!(profile.context_window, None);
}

#[test]
fn project_overrides_non_secret_flat_fields() {
    let global = file(
        "model = \"gpt-5\"\ncontext_window = 8000\n[provider]\nbase_url = \"https://global/v1\"\napi_key = \"sk-1\"",
    );
    let project = file("model = \"gpt-5-mini\"\n[provider]\nbase_url = \"https://project/v1\"");

    let profile = resolve(global, Some(project)).unwrap().default().copy();

    assert_eq!(profile.model, "gpt-5-mini");
    assert_eq!(profile.base_url, "https://project/v1");
    assert_eq!(profile.context_window, Some(8000));
    assert_eq!(profile.api_key, "sk-1"); // always from global
}

#[test]
fn resolves_named_profiles_and_the_default() {
    let global = file(
        "default_profile = \"ollama\"\n\
         [profiles.openai]\nmodel = \"gpt-5\"\nbase_url = \"https://api/v1\"\napi_key = \"sk-1\"\n\
         [profiles.ollama]\nmodel = \"llama3.2\"\nbase_url = \"http://localhost:11434/v1\"\napi_key = \"ollama\"\ncontext_window = 8000",
    );

    let config = resolve(global, None).unwrap();

    assert_eq!(config.profiles.len(), 2);
    assert_eq!(config.default_profile, "ollama");
    let active = config.default();
    assert_eq!(active.name, "ollama");
    assert_eq!(active.model, "llama3.2");
    assert_eq!(active.context_window, Some(8000));
    // Profiles are sorted by name for stable listing.
    assert_eq!(config.profiles[0].name, "ollama");
    assert_eq!(config.profiles[1].name, "openai");
}

#[test]
fn profiles_inherit_shared_provider_credentials() {
    let global = file(
        "default_profile = \"sol\"\n\
         [providers.jatevo]\nbase_url = \"https://api.jatevo.ai/v1\"\napi_key = \"sk-j\"\n\
         [providers.ollama]\nbase_url = \"http://localhost:11434/v1\"\napi_key = \"ollama\"\ntools = false\n\
         [profiles.sol]\nprovider = \"jatevo\"\nmodel = \"gpt-5.6-sol\"\n\
         [profiles.codeqwen]\nprovider = \"ollama\"\nmodel = \"codeqwen:latest\"",
    );
    let config = resolve(global, None).unwrap();

    let sol = config.find("sol").unwrap();
    assert_eq!(sol.base_url, "https://api.jatevo.ai/v1");
    assert_eq!(sol.api_key, "sk-j");
    assert!(sol.tools);

    let codeqwen = config.find("codeqwen").unwrap();
    assert_eq!(codeqwen.api_key, "ollama");
    assert!(!codeqwen.tools); // inherited from the ollama provider
}

#[test]
fn a_profile_referencing_an_unknown_provider_errors() {
    let text = refused(file("[profiles.x]\nprovider = \"ghost\"\nmodel = \"m\""), None);
    assert!(text.contains("unknown provider 'ghost'"));
}

#[test]
fn tools_default_on_and_can_be_disabled_per_profile() {
    let on = resolve(file("model = \"m\"\n[provider]\napi_key = \"k\""), None).unwrap();
    assert!(on.default().tools);

    let off = resolve(
        file("[profiles.local]\nmodel = \"m\"\napi_key = \"k\"\ntools = false"),
        None,
    )
    .unwrap();
    assert!(!off.default().tools);
}

#[test]
fn a_single_profile_needs_no_default() {
    let config =
        resolve(file("[profiles.only]\nmodel = \"m\"\napi_key = \"k\""), None).unwrap();
    assert_eq!(config.default_profile, "only");
}

#[test]
fn multiple_profiles_require_a_default() {
    let text = refused(
        file("[profiles.a]\nmodel = \"m\"\napi_key = \"k\"\n[profiles.b]\nmodel = \"m\"\napi_key = \"k\""),
        None,
    );
    assert!(text.contains("set `default_profile`"));
}

#[test]
fn a_project_may_pick_the_default_profile() {
    let global = file(
        "default_profile = \"a\"\n[profiles.a]\nmodel = \"m\"\napi_key = \"k\"\n[profiles.b]\nmodel = \"m\"\napi_key = \"k\"",
    );
    let project = file("default_profile = \"b\"");
    let config = resolve(global, Some(project)).unwrap();
    assert_eq!(config.default_profile, "b");
}

#[test]
fn an_unknown_default_profile_is_an_error() {
    let text = refused(
        file("default_profile = \"z\"\n[profiles.a]\nmodel = \"m\"\napi_key = \"k\""),
        None,
    );
    assert!(text.contains("does not match any [profiles.*] entry"), "{text}");
}

#[test]
fn profiles_without_a_model_or_a_key_are_errors() {
    let model = refused(file("[profiles.a]\napi_key = \"k\""), None);
    assert!(model.contains("model"), "{model}");
    let key = refused(file("[profiles.a]\nmodel = \"m\""), None);
    assert!(key.contains("api_key"), "{key}");
}

#[test]
fn resolves_mcp_servers_from_the_global_file() {
    let config = resolve(
        file(
            "model = \"m\"\n[provider]\napi_key = \"k\"\n\
             [mcp.excel]\ncommand = \"uvx\"\nargs = [\"mcp-excel\"]\n\
             [mcp.files]\ncommand = \"npx\"\ntrusted = true",
        ),
        None,
    )
    .unwrap();

    assert_eq!(config.mcp_servers.len(), 2);
    // Sorted by name for a stable order.
    assert_eq!(config.mcp_servers[0].name, "excel");
    assert_eq!(config.mcp_servers[0].command, "uvx");
    assert_eq!(config.mcp_servers[0].args, vec!["mcp-excel".to_string()]);
    assert!(!config.mcp_servers[0].trusted); // confirmation required by default
    assert!(config.mcp_servers[1].trusted);
}

#[test]
fn rejects_mcp_servers_in_a_project_file() {
    let global = file("model = \"m\"\n[provider]\napi_key = \"k\"");
    let project = file("[mcp.evil]\ncommand = \"curl\"");

    let text = refused(global, Some(project));
    assert!(text.contains("must not define [mcp.*]"));
}

#[test]
fn an_mcp_server_needs_a_command() {
    let text = refused(
        file("model = \"m\"\n[provider]\napi_key = \"k\"\n[mcp.broken]\nargs = [\"x\"]"),
        None,
    );
    assert!(text.contains("missing a command"));
}

#[test]
fn an_mcp_server_can_be_disabled_and_forward_env() {
    let config = resolve(
        file(
            "model = \"m\"\n[provider]\napi_key = \"k\"\n\
             [mcp.on]\ncommand = \"srv\"\nenabled = true\n\
             [mcp.on.environment]\nTOKEN = \"t\"\n\
             [mcp.off]\ncommand = \"srv\"\nenabled = false",
        ),
        None,
    )
    .unwrap();

    assert_eq!(config.mcp_servers.len(), 2, "disabled servers are kept");
    let on = config.mcp_servers.iter().find(|s| s.name == "on").unwrap();
    assert!(on.enabled);
    assert_eq!(on.env.get("TOKEN").map(String::as_str), Some("t"));
    let off = config.mcp_servers.iter().find(|s| s.name == "off").unwrap();
    assert!(!off.enabled);
}

#[test]
fn a_remote_mcp_server_parses_without_a_command() {
    let config = resolve(
        file(
            "model = \"m\"\n[provider]\napi_key = \"k\"\n\
             [mcp.remote]\ntype = \"remote\"\nurl = \"https://example.com/mcp\"\n\
             [mcp.remote.headers]\nX-Api-Key = \"secret\"",
        ),
        None,
    )
    .unwrap();

    assert_eq!(config.mcp_servers.len(), 1);
    let remote = &config.mcp_servers[0];
    assert_eq!(remote.url.as_deref(), Some("https://example.com/mcp"));
    assert_eq!(remote.command, "");
    assert_eq!(remote.headers.get("X-Api-Key").map(String::as_str), Some("secret"));
}

#[test]
fn a_remote_server_needs_a_url() {
    let text = refused(
        file("model = \"m\"\n[provider]\napi_key = \"k\"\n[mcp.far]\ntype = \"remote\""),
        None,
    );
    assert!(text.contains("far"), "{text}");
    assert!(text.contains("url"), "{text}");
}

#[test]
fn resolves_the_command_allowlist_from_the_global_file() {
    let config = resolve(
        file(
            "model = \"m\"\n[provider]\napi_key = \"k\"\n\
             [permissions]\nallow_commands = [\"git status\", \"cargo check\"]",
        ),
        None,
    )
    .unwrap();

    assert_eq!(
        config.allow_commands,
        vec!["git status".to_string(), "cargo check".to_string()]
    );
}

#[test]
fn rejects_an_allowlist_in_a_project_file() {
    let global = file("model = \"m\"\n[provider]\napi_key = \"k\"");
    let project = file("[permissions]\nallow_commands = [\"rm -rf /\"]");

    let text = refused(global, Some(project));
    assert!(text.contains("must not define [permissions]"));
}

#[test]
fn command_limits_default_when_unset() {
    let config = resolve(file("model = \"m\"\n[provider]\napi_key = \"k\""), None).unwrap();

    assert_eq!(config.command_timeout_secs, DEFAULT_COMMAND_TIMEOUT_SECS);
    assert_eq!(config.background_max_secs, DEFAULT_BACKGROUND_MAX_SECS);
}

#[test]
fn a_project_may_override_command_limits() {
    let global = file(
        "model = \"m\"\n[provider]\napi_key = \"k\"\n[commands]\ntimeout_secs = 60\nbackground_max_secs = 600",
    );
    let project = file("[commands]\ntimeout_secs = 120");

    let config = resolve(global, Some(project)).unwrap();

    assert_eq!(config.command_timeout_secs, 120); // project overrides global
    assert_eq!(config.background_max_secs, 600); // falls back to global
}

#[test]
fn rejects_an_api_key_in_a_project_file() {
    let global = file("model = \"gpt-5\"\n[provider]\napi_key = \"sk-1\"");
    let project = file("[provider]\napi_key = \"sk-leak\"");

    assert!(declares_key(&project));
    let text = refused(global, Some(project));
    assert!(text.contains("must not contain an api_key"));
}

#[test]
fn rejects_a_profile_api_key_in_a_project_file() {
    let global = file("[profiles.a]\nmodel = \"m\"\napi_key = \"k\"");
    let project = file("[profiles.a]\napi_key = \"sk-leak\"");

    let text = refused(global, Some(project));
    assert!(text.contains("must not contain an api_key"));
}

#[test]
fn requires_a_model_and_key_in_flat_mode() {
    assert!(refused(file("[provider]\napi_key = \"sk-1\""), None).contains("model is not configured"));
    assert!(refused(file("model = \"gpt-5\""), None).contains("api_key is not set"));
}

#[test]
fn an_unknown_theme_is_an_error() {
    let text = refused(file("model = \"m\"\ntheme = \"neon\"\n[provider]\napi_key = \"k\""), None);
    assert!(text.contains("neon"), "{text}");
    let config = resolve(
        file("model = \"m\"\ntheme = \"ayu-dark\"\n[provider]\napi_key = \"k\""),
        None,
    )
    .unwrap();
    assert_eq!(config.theme, Theme::AyuDark);
}

#[test]
fn the_parts_of_a_resolution_agree_with_the_whole() {
    let source = "model = \"m\"\n[provider]\napi_key = \"k\"\n[mcp.a]\ncommand = \"c\"";
    let flat = resolve_flat(&file(source), &None).unwrap();
    assert_eq!(flat.model, "m");
    let (profiles, default) = resolve_profiles(
        &file("[profiles.p]\nmodel = \"m\"\napi_key = \"k\""),
        &None,
    )
    .unwrap();
    assert_eq!(profiles.len(), 1);
    assert_eq!(default, "p");
    let servers = resolve_mcp_servers(file(source).mcp).unwrap();
    assert_eq!(servers[0].command, "c");
    let prices = resolve_prices(file(source).pricing, None).unwrap();
    assert!(prices.is_empty());
}

#[test]
fn a_name_finds_its_profile_and_no_other() {
    let config: Config = resolve(
        file("default_profile = \"a\"\n[profiles.a]\nmodel = \"m\"\napi_key = \"k\""),
        None,
    )
    .unwrap();
    assert_eq!(config.find("a").unwrap().model, "m");
    assert!(config.find("A").is_none());
}

#[test]
fn a_new_profile_gets_a_name_that_is_free() {
    let existing = "[profiles.gpt-5]\nmodel = \"gpt-5\"\napi_key = \"k\"\n";
    assert_eq!(taken_names(existing), vec!["gpt-5".to_string()]);
    let (name, block) = append_profile(existing, "https://api/v1", "sk", "gpt-5");
    assert_ne!(name, "gpt-5");
    let both = file(&format!("default_profile = \"gpt-5\"\n{existing}{block}"));
    assert_eq!(both.profiles.get(&name).unwrap().model.as_deref(), Some("gpt-5"));
    assert_eq!(both.profiles.get(&name).unwrap().base_url.as_deref(), Some("https://api/v1"));
    assert_eq!(free_name(&[], "fresh"), "fresh");
}

#[test]
fn profiles_are_found_however_their_headers_are_written() {
    for header in [
        "[profiles.gpt-5] # main",
        "[profiles.\"gpt-5\"]",
        "  [ profiles . gpt-5 ]",
        "[profiles]\ngpt-5.api_key = \"k\"",
    ] {
        let existing = format!("{header}\nmodel = \"gpt-5\"\n");
        assert!(taken_names(&existing).contains(&"gpt-5".to_string()), "{header}");
        let (name, block) = append_profile(&existing, "https://api/v1", "sk", "GPT 5");
        assert_eq!(name, "gpt-5-2", "{header}");
        let twice = format!("{existing}{block}");
        let (next, more) = append_profile(&twice, "https://api/v1", "sk", "gpt-5");
        assert_eq!(next, "gpt-5-3");
        assert!(taken_names(&format!("{twice}{more}")).contains(&next));
    }
    // A text that is no TOML still keeps the names in its headers.
    assert_eq!(taken_names("[profiles.a]\nmodel ="), vec!["a".to_string()]);
}
