use tsdb::app_config::{merge_config, resolve_config, AppConfig, Args, ConfigError};

fn no_overrides() -> Args {
    Args { config: "config.toml".to_string(), addr: None, port: None, node_id: None, generate_config: false }
}

fn file_config() -> AppConfig {
    AppConfig {
        addr: "10.0.0.5".to_string(),
        port: 4000,
        gossip_port: 6000,
        node_id: "file-node".to_string(),
        self_url: String::new(),
        bootstrap_peers: vec!["p:1".to_string()],
        data_dir: "/var/tsdb".to_string(),
    }
}

#[test]
fn defaults_are_the_documented_ones() {
    let c = AppConfig::default();
    assert_eq!(c.addr, "0.0.0.0");
    assert_eq!(c.port, 3000);
    assert_eq!(c.gossip_port, 5000);
    assert_eq!(c.node_id, "node-a");
    assert_eq!(c.self_url, "http://localhost:3000");
    assert_eq!(c.bootstrap_peers, vec!["localhost:3001".to_string(), "localhost:3002".to_string()]);
    assert_eq!(c.data_dir, "./tddb");
}

#[test]
fn command_line_overrides_win() {
    let args = Args {
        config: "x.toml".to_string(),
        addr: Some("127.0.0.1".to_string()),
        port: Some(9000),
        node_id: Some("cli-node".to_string()),
        generate_config: false,
    };
    let c = merge_config(file_config(), &args);
    assert_eq!(c.addr, "127.0.0.1");
    assert_eq!(c.port, 9000);
    assert_eq!(c.node_id, "cli-node");
    assert_eq!(c.gossip_port, 6000);
    assert_eq!(c.self_url, "http://127.0.0.1:9000");
    assert_eq!(c.data_dir, "/var/tsdb");
    assert_eq!(c.bootstrap_peers, vec!["p:1".to_string()]);
}

#[test]
fn file_self_url_is_kept_when_set() {
    let mut f = file_config();
    f.self_url = "http://public:80".to_string();
    let c = merge_config(f, &no_overrides());
    assert_eq!(c.self_url, "http://public:80");
    assert_eq!(c.addr, "10.0.0.5");
    assert_eq!(c.port, 4000);
}

#[test]
fn missing_default_file_falls_back_to_defaults() {
    let c = resolve_config(&no_overrides(), None, true).expect("defaults");
    assert_eq!(c.node_id, "node-a");
    assert_eq!(c.self_url, "http://0.0.0.0:3000");
    assert_eq!(c.data_dir, "./tddb");
}

#[test]
fn defaulted_self_url_follows_the_final_address_and_port() {
    let mut args = no_overrides();
    args.port = Some(8080);
    let c = resolve_config(&args, None, true).expect("defaults");
    assert_eq!(c.port, 8080);
    assert_eq!(c.addr, "0.0.0.0");
    assert_eq!(c.self_url, "http://0.0.0.0:8080");
}

#[test]
fn missing_named_file_is_an_error() {
    let mut args = no_overrides();
    args.config = "other.toml".to_string();
    assert!(matches!(resolve_config(&args, None, false), Err(ConfigError::UnreadableConfigFile)));
    let c = resolve_config(&args, Some(file_config()), false).expect("loaded");
    assert_eq!(c.self_url, "http://10.0.0.5:4000");
}

#[test]
fn documented_sample_of_defaults() {
    let text = AppConfig::default().to_documented_toml();
    let expected = [
        "# Sample Configuration for new TSDB",
        "",
        "# The IP address or hostname the server should listen on (e.g. 127.0.0.1 or 0.0.0.0)",
        "addr = \"0.0.0.0\"",
        "",
        "# The port number on which the server should accept requests",
        "#",
        "# This is the public-facing port used by browsers or other apps to connect to your server.",
        "# Make sure this port is not blocked by your system's firewall.",
        "# Avoid using ports below 1024 unless your app runs as root (e.g. 80 or 443).",
        "port = 3000",
        "",
        "# Gossip port",
        "gossip_port = 5000",
        "",
        "# A unique name or ID that identifies this server node in a cluster",
        "node_id = \"node-a\"",
        "",
        "# The HTTP URL that this node advertises to peers (e.g. http://localhost:3000)",
        "self_url = \"http://localhost:3000\"",
        "",
        "# URLs of other nodes in the network that this node can communicate with",
        "bootstrap_peers = [\"localhost:3001\", \"localhost:3002\"]",
        "",
        "# Path to the folder where the app will store data files. Default is \"./tddb\"",
        "data_dir = \"./tddb\"",
        "",
    ]
    .join("\n");
    assert_eq!(text, expected);
}
