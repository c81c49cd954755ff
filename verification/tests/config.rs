//! Settings of the assistant's service.

use gridterm::ai::config::{candidate_paths, AiConfig, Dotenv, EnvSettings};

fn none() -> EnvSettings {
    EnvSettings { endpoint: None, deployment: None, api_version: None, api_key: None }
}

#[test]
fn settings_files_are_read() {
    let d = Dotenv::parse(
        "# comment\n\n A = 1 \nexport B=\"two\"\nC='x y'\r\nD=\"'q'\"\nE\nA=3\n=e\nF=a=b\nexport=5\n",
    );
    assert_eq!(d.get("A").as_deref(), Some("3"));
    assert_eq!(d.get("B").as_deref(), Some("two"));
    assert_eq!(d.get("C").as_deref(), Some("x y"));
    assert_eq!(d.get("D").as_deref(), Some("q"));
    assert_eq!(d.get("E"), None);
    assert_eq!(d.get("").as_deref(), Some("e"));
    assert_eq!(d.get("F").as_deref(), Some("a=b"));
    assert_eq!(d.get("export").as_deref(), Some("5"));
    assert_eq!(d.get("comment"), None);
}

const FILE: &str =
    "AZURE_OPENAI_ENDPOINT=https://e/\nAZURE_OPENAI_DEPLOYMENT=d\nAZURE_OPENAI_KEY=k\n";

#[test]
fn the_environment_wins_over_the_file() {
    let mut env = none();
    env.deployment = Some("mine".to_string());
    let c = AiConfig::load(env, Some(FILE.to_string())).unwrap();
    assert_eq!(c.deployment, "mine");
    assert_eq!(c.endpoint, "https://e/");
    assert_eq!(c.api_key, "k");
    assert_eq!(c.api_version, "2024-10-21");
    assert_eq!(
        c.clone().chat_url(),
        "https://e/openai/deployments/mine/chat/completions?api-version=2024-10-21"
    );
}

#[test]
fn a_missing_setting_disables_the_assistant() {
    assert!(AiConfig::load(none(), None).is_none());
    for key in ["ENDPOINT", "DEPLOYMENT", "KEY"] {
        let file: String = FILE.lines().filter(|l| !l.contains(key)).map(|l| format!("{l}\n")).collect();
        assert!(AiConfig::load(none(), Some(file)).is_none(), "{key}");
    }
    let versioned = format!("{FILE}AZURE_OPENAI_API_VERSION=v9\n");
    assert_eq!(AiConfig::load(none(), Some(versioned)).unwrap().api_version, "v9");
}

#[test]
fn slashes_at_the_end_do_not_matter() {
    let at = |e: &str| AiConfig {
        endpoint: e.to_string(),
        deployment: "d".to_string(),
        api_version: "v".to_string(),
        api_key: "k".to_string(),
    };
    assert_eq!(at("https://e").chat_url(), at("https://e//").chat_url());
}

#[test]
fn settings_files_are_looked_for_in_order() {
    let text = |s: &str| Some(s.to_string());
    assert_eq!(
        candidate_paths(text("/work"), text("/opt/bin/")),
        vec!["/work/.env", "/opt/bin/.env", "/opt/bin/../../.env"]
    );
    assert_eq!(candidate_paths(None, text("/b")), vec!["/b/.env", "/b/../../.env"]);
    assert_eq!(candidate_paths(text("/w"), None), vec!["/w/.env"]);
    assert!(candidate_paths(None, None).is_empty());
}
