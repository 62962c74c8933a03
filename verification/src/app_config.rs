//! The node's configuration: its defaults, how command-line overrides combine
//! with the configuration file, and the documented sample file.

use vstd::prelude::*;

use crate::text::{decimal_text, http_url, http_url_text, join_strings, join_text, owned, push_text};

verus! {

/// Command-line arguments.
pub struct Args {
    /// Path to config file (TOML).
    pub config: String,
    /// Override listen address.
    pub addr: Option<String>,
    /// Override port.
    pub port: Option<u16>,
    /// Override node ID.
    pub node_id: Option<String>,
    /// Generate a sample config.toml and exit.
    pub generate_config: bool,
}

/// Combined configuration.
pub struct AppConfig {
    pub addr: String,
    pub port: u16,
    pub gossip_port: u16,
    pub node_id: String,
    pub self_url: String,
    pub bootstrap_peers: Vec<String>,
    pub data_dir: String,
}

/// The mathematical content of an [`AppConfig`].
pub struct AppConfigView {
    pub addr: Seq<char>,
    pub port: u16,
    pub gossip_port: u16,
    pub node_id: Seq<char>,
    pub self_url: Seq<char>,
    pub bootstrap_peers: Seq<Seq<char>>,
    pub data_dir: Seq<char>,
}

impl DeepView for AppConfig {
    type V = AppConfigView;

    open spec fn deep_view(&self) -> AppConfigView {
        AppConfigView {
            addr: self.addr@,
            port: self.port,
            gossip_port: self.gossip_port,
            node_id: self.node_id@,
            self_url: self.self_url@,
            bootstrap_peers: self.bootstrap_peers.deep_view(),
            data_dir: self.data_dir@,
        }
    }
}

/// The built-in configuration: listen on 0.0.0.0:3000, gossip on 5000, node
/// `node-a` advertising `http://localhost:3000`, two local bootstrap peers,
/// data under `./tddb`.
pub open spec fn default_config() -> AppConfigView {
    AppConfigView {
        addr: "0.0.0.0"@,
        port: 3000,
        gossip_port: 5000,
        node_id: "node-a"@,
        self_url: http_url_text("localhost"@, 3000),
        bootstrap_peers: seq!["localhost:3001"@, "localhost:3002"@],
        data_dir: "./tddb"@,
    }
}

impl Default for AppConfig {
    fn default() -> (cfg: Self)
        ensures
            cfg.deep_view() == default_config(),
    {
        let port: u16 = 3000;
        let self_url = http_url("localhost", port);
        let peers = vec![owned("localhost:3001"), owned("localhost:3002")];
        let cfg = AppConfig {
            addr: owned("0.0.0.0"),
            port,
            gossip_port: 5000,
            node_id: owned("node-a"),
            self_url,
            bootstrap_peers: peers,
            data_dir: owned("./tddb"),
        };
        assert(cfg.deep_view().bootstrap_peers =~= default_config().bootstrap_peers);
        cfg
    }
}

/// What stands in for an unreadable default configuration file: the built-in
/// defaults, with the advertised URL left to be derived from the final address
/// and port.
pub open spec fn fallback_config() -> AppConfigView {
    AppConfigView { self_url: Seq::<char>::empty(), ..default_config() }
}

/// `value` when present, else `fallback`.
pub open spec fn override_or<T>(value: Option<T>, fallback: T) -> T {
    match value {
        Some(v) => v,
        None => fallback,
    }
}

/// The option's text, if any.
pub open spec fn text_option(o: Option<String>) -> Option<Seq<char>> {
    match o {
        Some(s) => Some(s@),
        None => None,
    }
}

/// The configuration in force: the file's values, with the command line's
/// address, port and node ID taking precedence, and the advertised URL taken
/// from the file unless it is empty, in which case it is
/// `http://<addr>:<port>` of the final address and port.
pub open spec fn merged_config(
    file: AppConfigView,
    addr: Option<Seq<char>>,
    port: Option<u16>,
    node_id: Option<Seq<char>>,
) -> AppConfigView {
    let addr = override_or(addr, file.addr);
    let port = override_or(port, file.port);
    AppConfigView {
        addr,
        port,
        gossip_port: file.gossip_port,
        node_id: override_or(node_id, file.node_id),
        self_url: if file.self_url.len() != 0 {
            file.self_url
        } else {
            http_url_text(addr, port as nat)
        },
        bootstrap_peers: file.bootstrap_peers,
        data_dir: file.data_dir,
    }
}

/// A non-empty advertised URL in the file is kept whatever the command line
/// overrides; an empty one is derived from the final address and port. The
/// overrides take precedence for address, port and node ID.
pub proof fn lemma_file_url_kept(
    file: AppConfigView,
    addr: Option<Seq<char>>,
    port: Option<u16>,
    node_id: Option<Seq<char>>,
)
    ensures
        file.self_url.len() != 0 ==> merged_config(file, addr, port, node_id).self_url == file.self_url,
        file.self_url.len() == 0 ==> merged_config(file, addr, port, node_id).self_url == http_url_text(
            merged_config(file, addr, port, node_id).addr,
            merged_config(file, addr, port, node_id).port as nat,
        ),
        addr matches Some(a) ==> merged_config(file, addr, port, node_id).addr == a,
        addr is None ==> merged_config(file, addr, port, node_id).addr == file.addr,
        port matches Some(p) ==> merged_config(file, addr, port, node_id).port == p,
        port is None ==> merged_config(file, addr, port, node_id).port == file.port,
        node_id matches Some(n) ==> merged_config(file, addr, port, node_id).node_id == n,
        node_id is None ==> merged_config(file, addr, port, node_id).node_id == file.node_id,
{
}

/// Combines the file's configuration with the command-line overrides.
pub fn merge_config(file: AppConfig, args: &Args) -> (cfg: AppConfig)
    ensures
        cfg.deep_view() == merged_config(
            file.deep_view(),
            text_option(args.addr),
            args.port,
            text_option(args.node_id),
        ),
        file.self_url@.len() != 0 ==> cfg.self_url@ == file.self_url@,
        file.self_url@.len() == 0 ==> cfg.self_url@ == http_url_text(cfg.addr@, cfg.port as nat),
{
    let addr = match &args.addr {
        Some(a) => a.clone(),
        None => file.addr,
    };
    let port = match args.port {
        Some(p) => p,
        None => file.port,
    };
    let node_id = match &args.node_id {
        Some(n) => n.clone(),
        None => file.node_id,
    };
    let self_url = if !file.self_url.as_str().is_empty() {
        file.self_url
    } else {
        http_url(addr.as_str(), port)
    };
    AppConfig {
        addr,
        port,
        gossip_port: file.gossip_port,
        node_id,
        self_url,
        bootstrap_peers: file.bootstrap_peers,
        data_dir: file.data_dir,
    }
}

/// Why no configuration could be settled on.
#[derive(Debug, Clone, Copy, PartialEq, Eq)]
pub enum ConfigError {
    /// A configuration file other than the default `config.toml` was named and
    /// could not be read.
    UnreadableConfigFile,
}

/// Settles the configuration from the command line and the file's contents
/// (`None` when the file could not be read or deserialized). A missing or bad
/// file is an error only when the command line named a path other than the
/// default `config.toml` (`config_is_default_path`); otherwise the built-in
/// defaults stand in for it, and the advertised URL, being a default, is
/// derived from the final address and port. Command-line overrides apply on
/// top.
pub fn resolve_config(args: &Args, loaded: Option<AppConfig>, config_is_default_path: bool) -> (res: Result<
    AppConfig,
    ConfigError,
>)
    ensures
        match loaded {
            Some(file) => res matches Ok(cfg) && cfg.deep_view() == merged_config(
                file.deep_view(),
                text_option(args.addr),
                args.port,
                text_option(args.node_id),
            ),
            None => if config_is_default_path {
                res matches Ok(cfg) && cfg.deep_view() == merged_config(
                    fallback_config(),
                    text_option(args.addr),
                    args.port,
                    text_option(args.node_id),
                )
            } else {
                res == Err::<AppConfig, ConfigError>(ConfigError::UnreadableConfigFile)
            },
        },
{
    match loaded {
        Some(file) => Ok(merge_config(file, args)),
        None => {
            if config_is_default_path {
                let mut fallback = AppConfig::default();
                fallback.self_url = String::new();
                assert(fallback.deep_view() =~= fallback_config());
                Ok(merge_config(fallback, args))
            } else {
                Err(ConfigError::UnreadableConfigFile)
            }
        },
    }
}

/// How `toml::Value::try_from(s).to_string()` renders a string.
pub uninterp spec fn toml_string_text(s: Seq<char>) -> Seq<char>;

/// How `toml::Value::try_from(items).to_string()` renders a list of strings.
pub uninterp spec fn toml_string_list_text(items: Seq<Seq<char>>) -> Seq<char>;

/// Renders a string as a TOML value with the `toml` crate.
/// Trusted: the text is `toml_string_text(s@)`, a function of `s` alone.
#[verifier::external_body]
fn render_toml_string(s: &String) -> (out: String)
    ensures
        out@ == toml_string_text(s@),
{
    match toml::Value::try_from(s) {
        Ok(v) => v.to_string(),
        Err(_) => format!("{:?}", s),
    }
}

/// Renders a `u16` as a TOML value with the `toml` crate.
/// Trusted: a TOML integer is written in plain decimal.
#[verifier::external_body]
fn render_toml_integer(n: u16) -> (out: String)
    ensures
        out@ == decimal_text(n as nat),
{
    match toml::Value::try_from(n) {
        Ok(v) => v.to_string(),
        Err(_) => format!("{:?}", n),
    }
}

/// Renders a list of strings as a TOML array with the `toml` crate.
/// Trusted: the text is `toml_string_list_text(items)` of the items' texts.
#[verifier::external_body]
fn render_toml_string_list(items: &Vec<String>) -> (out: String)
    ensures
        out@ == toml_string_list_text(items.deep_view()),
{
    match toml::Value::try_from(items) {
        Ok(v) => v.to_string(),
        Err(_) => format!("{:?}", items),
    }
}

/// The documentation block of one setting: `# <description>`, then, when there
/// is a long description, a bare `#` and each of its lines behind `# `, then
/// `<name> = <value>` and an empty line.
pub open spec fn setting_doc_lines(
    name: Seq<char>,
    description: Seq<char>,
    long_description: Seq<Seq<char>>,
    value: Seq<char>,
) -> Seq<Seq<char>> {
    seq!["# "@ + description] + (if long_description.len() == 0 {
        Seq::<Seq<char>>::empty()
    } else {
        seq!["#"@] + long_description.map_values(|l: Seq<char>| "# "@ + l)
    }) + seq![name + " = "@ + value, Seq::<char>::empty()]
}

/// The lines of the documented sample configuration for `c`.
pub open spec fn documented_toml_lines(c: AppConfigView) -> Seq<Seq<char>> {
    seq!["# Sample Configuration for new TSDB"@, Seq::<char>::empty()]
        + setting_doc_lines(
        "addr"@,
        "The IP address or hostname the server should listen on (e.g. 127.0.0.1 or 0.0.0.0)"@,
        Seq::<Seq<char>>::empty(),
        toml_string_text(c.addr),
    ) + setting_doc_lines(
        "port"@,
        "The port number on which the server should accept requests"@,
        seq![
            "This is the public-facing port used by browsers or other apps to connect to your server."@,
            "Make sure this port is not blocked by your system's firewall."@,
            "Avoid using ports below 1024 unless your app runs as root (e.g. 80 or 443)."@,
        ],
        decimal_text(c.port as nat),
    ) + setting_doc_lines(
        "gossip_port"@,
        "Gossip port"@,
        Seq::<Seq<char>>::empty(),
        decimal_text(c.gossip_port as nat),
    ) + setting_doc_lines(
        "node_id"@,
        "A unique name or ID that identifies this server node in a cluster"@,
        Seq::<Seq<char>>::empty(),
        toml_string_text(c.node_id),
    ) + setting_doc_lines(
        "self_url"@,
        "The HTTP URL that this node advertises to peers (e.g. http://localhost:3000)"@,
        Seq::<Seq<char>>::empty(),
        toml_string_text(c.self_url),
    ) + setting_doc_lines(
        "bootstrap_peers"@,
        "URLs of other nodes in the network that this node can communicate with"@,
        Seq::<Seq<char>>::empty(),
        toml_string_list_text(c.bootstrap_peers),
    ) + setting_doc_lines(
        "data_dir"@,
        "Path to the folder where the app will store data files. Default is \"./tddb\""@,
        Seq::<Seq<char>>::empty(),
        toml_string_text(c.data_dir),
    )
}

/// The documented sample configuration file for `c`.
pub open spec fn documented_toml(c: AppConfigView) -> Seq<char> {
    join_text(documented_toml_lines(c), "\n"@)
}

/// `prefix` followed by `rest`, as a new `String`.
fn joined(prefix: &str, rest: &str) -> (out: String)
    ensures
        out@ == prefix@ + rest@,
{
    let mut out = owned(prefix);
    push_text(&mut out, rest);
    out
}

/// Appends the documentation block of one setting to `lines`.
fn push_setting_doc(lines: &mut Vec<String>, name: &str, description: &str, long_description: &[&str], value: String)
    ensures
        final(lines).deep_view() == old(lines).deep_view() + setting_doc_lines(
            name@,
            description@,
            long_description@.map_values(|l: &str| l@),
            value@,
        ),
{
    let ghost start = lines.deep_view();
    let ghost long = long_description@.map_values(|l: &str| l@);
    lines.push(joined("# ", description));
    let ghost after_description = lines.deep_view();
    assert(after_description =~= start + seq!["# "@ + description@]);
    let ghost long_block = if long.len() == 0 {
        Seq::<Seq<char>>::empty()
    } else {
        seq!["#"@] + long.map_values(|l: Seq<char>| "# "@ + l)
    };
    if long_description.len() > 0 {
        lines.push(owned("#"));
        let mut i: usize = 0;
        while i < long_description.len()
            invariant
                0 <= i <= long_description@.len(),
                long == long_description@.map_values(|l: &str| l@),
                lines.deep_view() == after_description + seq!["#"@] + long.take(i as int).map_values(
                    |l: Seq<char>| "# "@ + l,
                ),
            decreases long_description@.len() - i,
        {
            let ghost before = lines.deep_view();
            lines.push(joined("# ", long_description[i]));
            i = i + 1;
            proof {
                assert(long.take(i as int).map_values(|l: Seq<char>| "# "@ + l) =~= long.take(
                    (i - 1) as int,
                ).map_values(|l: Seq<char>| "# "@ + l).push("# "@ + long[(i - 1) as int]));
                assert(lines.deep_view() =~= before.push("# "@ + long[(i - 1) as int]));
            }
        }
        assert(long.take(long_description@.len() as int) =~= long);
        assert(lines.deep_view() =~= after_description + long_block);
    } else {
        assert(after_description + long_block =~= after_description);
    }
    let ghost after_long = lines.deep_view();
    assert(after_long == after_description + long_block);
    let assignment = joined(name, " = ").concat(value.as_str());
    let ghost assignment_text = assignment@;
    lines.push(assignment);
    lines.push(String::new());
    assert(lines.deep_view() =~= after_long + seq![assignment_text, Seq::<char>::empty()]);
    assert(assignment_text == name@ + " = "@ + value@);
    assert(setting_doc_lines(name@, description@, long, value@) =~= seq!["# "@ + description@] + long_block + seq![
        name@ + " = "@ + value@,
        Seq::<char>::empty(),
    ]);
    assert(lines.deep_view() =~= start + setting_doc_lines(name@, description@, long, value@));
}

impl AppConfig {
    /// The documented sample configuration file (a TOML document whose every
    /// setting is preceded by comment lines describing it).
    pub fn to_documented_toml(&self) -> (out: String)
        ensures
            out@ == documented_toml(self.deep_view()),
    {
        let mut lines: Vec<String> = Vec::new();
        lines.push(owned("# Sample Configuration for new TSDB"));
        lines.push(String::new());
        let none: [&str; 0] = [];
        push_setting_doc(
            &mut lines,
            "addr",
            "The IP address or hostname the server should listen on (e.g. 127.0.0.1 or 0.0.0.0)",
            &none,
            render_toml_string(&self.addr),
        );
        let port_notes: [&str; 3] = [
            "This is the public-facing port used by browsers or other apps to connect to your server.",
            "Make sure this port is not blocked by your system's firewall.",
            "Avoid using ports below 1024 unless your app runs as root (e.g. 80 or 443).",
        ];
        push_setting_doc(
            &mut lines,
            "port",
            "The port number on which the server should accept requests",
            &port_notes,
            render_toml_integer(self.port),
        );
        push_setting_doc(&mut lines, "gossip_port", "Gossip port", &none, render_toml_integer(self.gossip_port));
        push_setting_doc(
            &mut lines,
            "node_id",
            "A unique name or ID that identifies this server node in a cluster",
            &none,
            render_toml_string(&self.node_id),
        );
        push_setting_doc(
            &mut lines,
            "self_url",
            "The HTTP URL that this node advertises to peers (e.g. http://localhost:3000)",
            &none,
            render_toml_string(&self.self_url),
        );
        push_setting_doc(
            &mut lines,
            "bootstrap_peers",
            "URLs of other nodes in the network that this node can communicate with",
            &none,
            render_toml_string_list(&self.bootstrap_peers),
        );
        push_setting_doc(
            &mut lines,
            "data_dir",
            "Path to the folder where the app will store data files. Default is \"./tddb\"",
            &none,
            render_toml_string(&self.data_dir),
        );
        proof {
            assert(none@.map_values(|l: &str| l@) =~= Seq::<Seq<char>>::empty());
            assert(port_notes@.map_values(|l: &str| l@) =~= seq![
                "This is the public-facing port used by browsers or other apps to connect to your server."@,
                "Make sure this port is not blocked by your system's firewall."@,
                "Avoid using ports below 1024 unless your app runs as root (e.g. 80 or 443)."@,
            ]);
            assert(lines.deep_view() =~= documented_toml_lines(self.deep_view()));
        }
        join_strings(&lines, "\n")
    }
}

} // verus!
