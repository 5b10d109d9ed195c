//! The settings of the agent panel.

use lapce_agent::assoc::AssocMap;
use lapce_agent::config::{
    keeps_key, strip_agent_settings, strip_table, AgentConfig, AgentServerSetting,
};

fn server(command: &str) -> AgentServerSetting {
    AgentServerSetting {
        command: command.to_string(),
        arguments: vec!["-y".to_string()],
        environment: AssocMap::new(),
    }
}

/// Builds an `AgentConfig` with one `gemini-cli` server for the tests below.
fn config(default: &str, command: &str) -> AgentConfig {
    let mut servers = AssocMap::new();
    servers.insert("gemini-cli".to_string(), server(command));
    AgentConfig {
        default_server: default.to_string(),
        servers,
    }
}

#[test]
fn resolves_the_default_server() {
    let resolved = config("gemini-cli", "npx").resolve().unwrap_or_else(|_| panic!());
    assert_eq!(resolved.command, "npx");
    assert_eq!(resolved.args, vec!["-y".to_string()]);
}

#[test]
fn resolves_the_environment() {
    let mut setting = server("npx");
    setting
        .environment
        .insert("KEY".to_string(), "value".to_string());
    let mut servers = AssocMap::new();
    servers.insert("a".to_string(), setting);
    let config = AgentConfig {
        default_server: "a".to_string(),
        servers,
    };
    let resolved = config.resolve().unwrap_or_else(|_| panic!());
    assert_eq!(
        resolved.env.get(&"KEY".to_string()),
        Some(&"value".to_string())
    );
    assert_eq!(resolved.env.get(&"OTHER".to_string()), None);
}

#[test]
fn unknown_default_server_lists_the_available_names() {
    let err = config("nope", "npx").resolve().err().unwrap();
    assert!(err.contains("nope"));
    assert!(err.contains("gemini-cli"));
}

#[test]
fn the_available_names_are_sorted() {
    let mut servers = AssocMap::new();
    for name in ["b", "a", "\u{e9}", "aa", "", "B"] {
        servers.insert(name.to_string(), server("npx"));
    }
    let config = AgentConfig {
        default_server: "nope".to_string(),
        servers,
    };
    assert_eq!(
        config.resolve().err().unwrap(),
        "agent server 'nope' is not configured (available: , B, a, aa, b, \u{e9})"
    );
    let none = AgentConfig {
        default_server: "nope".to_string(),
        servers: AssocMap::new(),
    };
    assert_eq!(
        none.resolve().err().unwrap(),
        "agent server 'nope' is not configured (available: )"
    );
}

#[test]
fn empty_command_is_rejected() {
    assert!(config("gemini-cli", "  ").resolve().is_err());
    assert_eq!(
        config("gemini-cli", "\t\u{a0}").resolve().err().unwrap(),
        "agent server 'gemini-cli' has an empty command"
    );
    assert!(config("gemini-cli", "").resolve().is_err());
    assert!(config("gemini-cli", " x").resolve().is_ok());
}

#[test]
fn workspace_settings_lose_the_agent_table_and_keep_the_rest() {
    let text = r#"
[editor]
font-size = 20

[agent]
default-server = "evil"

[agent.servers.evil]
command = "sh"
arguments = ["-c", "touch /tmp/pwned"]

[Agent.servers.other]
command = "sh"
"#;
    let stripped: toml::Table = strip_agent_settings(text).unwrap().parse().unwrap();
    assert!(!stripped.contains_key("agent"));
    assert!(!stripped.contains_key("Agent"));
    assert_eq!(stripped["editor"]["font-size"].as_integer(), Some(20));
}

#[test]
fn dotted_agent_keys_are_removed_too() {
    let text = "agent.servers.gemini-cli.command = \"sh\"\n";
    let stripped: toml::Table = strip_agent_settings(text).unwrap().parse().unwrap();
    assert!(stripped.is_empty());
}

#[test]
fn settings_without_an_agent_table_are_unchanged() {
    let text = "[editor]\nfont-size = 20\n";
    assert_eq!(strip_agent_settings(text).as_deref(), Some(text));
}

#[test]
fn stripping_twice_is_stripping_once() {
    let text = "x = 1\n[agent]\ny = 2\n[z]\n";
    let once = strip_agent_settings(text).unwrap();
    assert_eq!(strip_agent_settings(&once), Some(once.clone()));
    assert!(!once.contains("agent"));
}

#[test]
fn invalid_toml_is_rejected() {
    assert!(strip_agent_settings("[editor\n").is_none());
}

#[test]
fn every_other_key_is_kept_when_the_agent_table_goes() {
    let text = "a = 1\nAGENT = 2\nagents = 3\n\"a.b\" = 4\n[empty]\n[[list]]\nx = 1\n[aGent]\n";
    let stripped: toml::Table = strip_agent_settings(text).unwrap().parse().unwrap();
    let keys: Vec<&str> = stripped.keys().map(String::as_str).collect();
    assert_eq!(keys, vec!["a", "a.b", "agents", "empty", "list"]);
    assert_eq!(stripped["agents"].as_integer(), Some(3));
    assert_eq!(stripped["list"][0]["x"].as_integer(), Some(1));
}

#[test]
fn a_table_without_agent_keys_gives_the_text_back() {
    let table: toml::Table = "x = 1".parse().unwrap();
    assert_eq!(strip_table("any text", table).as_deref(), Some("any text"));
    let table: toml::Table = "x = 1\nagent = 2".parse().unwrap();
    assert_eq!(strip_table("any text", table).as_deref(), Some("x = 1\n"));
}

#[test]
fn keys_are_matched_ignoring_ascii_case() {
    for key in ["agent", "Agent", "AGENT", "aGeNt"] {
        assert!(!keeps_key(key));
    }
    for key in ["agents", "agen", "", "agenT2", "\u{e0}gent", "a-ent", "`gent"] {
        assert!(keeps_key(key));
    }
    for code in 0..=0x10ffffu32 {
        if let Some(c) = char::from_u32(code) {
            let key = format!("age{c}t");
            assert_eq!(keeps_key(&key), !key.eq_ignore_ascii_case("agent"));
        }
    }
}
