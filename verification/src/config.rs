//! Where Hull keeps its files, and how the daemon is configured.
use vstd::prelude::*;
use vstd::string::StringExecFns;
use vstd::string::StrSliceExecFns;

verus! {

/// Whether two texts are the same.
pub fn text_eq(a: &str, b: &str) -> (r: bool)
    ensures
        r == (a@ == b@),
{
    String::from_str(a) == String::from_str(b)
}

/// The path of `name` inside the directory `root`: a separator goes between
/// them unless `root` is empty or already ends with one.
pub open spec fn join_path(root: Seq<char>, name: Seq<char>) -> Seq<char> {
    if root.len() == 0 || root.last() == '/' {
        root + name
    } else {
        root + seq!['/'] + name
    }
}

/// `join_path` on texts.
pub fn path_join(root: &str, name: &str) -> (r: String)
    ensures
        r@ == join_path(root@, name@),
{
    let n = root.unicode_len();
    let mut r = String::from_str(root);
    if n > 0 && root.get_char(n - 1) != '/' {
        r.append("/");
        proof {
            reveal_strlit("/");
        }
    }
    r.append(name);
    r
}

/// The database file under the root data directory.
pub fn get_db_path(root: &str) -> (r: String)
    ensures
        r@ == join_path(root@, "hull.db"@),
{
    path_join(root, "hull.db")
}

/// The configuration file: the one given on the command line, else
/// `hull.json` under the root data directory.
pub fn get_config_path(root: &str, override_path: Option<String>) -> (r: String)
    ensures
        match override_path {
            Some(p) => r@ == p@,
            None => r@ == join_path(root@, "hull.json"@),
        },
{
    match override_path {
        Some(p) => p,
        None => path_join(root, "hull.json"),
    }
}

/// The root data directory: `HULL_PATH` when set, else `hull` under
/// `XDG_DATA_HOME` when that is set, else `/var/lib/hull`.
pub fn root_path_from(hull_path: Option<String>, xdg_data_home: Option<String>) -> (r: String)
    ensures
        match (hull_path, xdg_data_home) {
            (Some(p), _) => r@ == p@,
            (None, Some(d)) => r@ == join_path(d@, "hull"@),
            (None, None) => r@ == "/var/lib/hull"@,
        },
{
    match hull_path {
        Some(p) => p,
        None => match xdg_data_home {
            Some(d) => path_join(d.as_str(), "hull"),
            None => String::from_str("/var/lib/hull"),
        },
    }
}

/// The daemon socket: `HULL_SOCKET` when set, else `hulld.sock` under the
/// root data directory.
pub fn socket_path_from(root: &str, hull_socket: Option<String>) -> (r: String)
    ensures
        match hull_socket {
            Some(p) => r@ == p@,
            None => r@ == join_path(root@, "hulld.sock"@),
        },
{
    match hull_socket {
        Some(p) => p,
        None => path_join(root, "hulld.sock"),
    }
}

/// Hull's configuration.
#[derive(Debug, Clone)]
pub struct Config {
    /// Name of the bridge managed by Hull.
    pub bridge_name: String,
}

impl Config {
    /// The configuration used when no file holds one: the bridge named by
    /// `HULL_BRIDGE` when that is set, else `hull0`.
    pub fn default_from(hull_bridge: Option<String>) -> (r: Config)
        ensures
            match hull_bridge {
                Some(b) => r.bridge_name@ == b@,
                None => r.bridge_name@ == "hull0"@,
            },
    {
        match hull_bridge {
            Some(b) => Config { bridge_name: b },
            None => Config { bridge_name: String::from_str("hull0") },
        }
    }
}

/// How the daemon writes its log.
#[derive(Debug, Clone, Copy, PartialEq, Eq, Structural)]
pub enum LogFormat {
    Text,
    Json,
}

/// The most detailed level the daemon logs.
#[derive(Debug, Clone, Copy, PartialEq, Eq, Structural)]
pub enum LogLevel {
    Error,
    Warn,
    Info,
    Debug,
    Trace,
}

/// The log format named on the command line: `json`, else text.
pub fn log_format_from_name(name: Option<&str>) -> (r: LogFormat)
    ensures
        r == (if name matches Some(n) && n@ == "json"@ {
            LogFormat::Json
        } else {
            LogFormat::Text
        }),
{
    match name {
        Some(n) => if text_eq(n, "json") {
            LogFormat::Json
        } else {
            LogFormat::Text
        },
        None => LogFormat::Text,
    }
}

/// The log level named on the command line; anything but `error`, `warn`,
/// `debug` and `trace` means info.
pub fn log_level_from_name(name: Option<&str>) -> (r: LogLevel)
    ensures
        r == match name {
            Some(n) => if n@ == "error"@ {
                LogLevel::Error
            } else if n@ == "warn"@ {
                LogLevel::Warn
            } else if n@ == "debug"@ {
                LogLevel::Debug
            } else if n@ == "trace"@ {
                LogLevel::Trace
            } else {
                LogLevel::Info
            },
            None => LogLevel::Info,
        },
{
    match name {
        Some(n) => if text_eq(n, "error") {
            LogLevel::Error
        } else if text_eq(n, "warn") {
            LogLevel::Warn
        } else if text_eq(n, "debug") {
            LogLevel::Debug
        } else if text_eq(n, "trace") {
            LogLevel::Trace
        } else {
            LogLevel::Info
        },
        None => LogLevel::Info,
    }
}

} // verus!
