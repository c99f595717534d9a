use hull::config::{
    get_config_path, get_db_path, log_format_from_name, log_level_from_name, path_join, root_path_from,
    socket_path_from, Config, LogFormat, LogLevel,
};

#[test]
fn database_and_config_paths() {
    assert_eq!(get_db_path("/var/lib/hull"), "/var/lib/hull/hull.db");
    assert_eq!(get_db_path("/var/lib/hull/"), "/var/lib/hull/hull.db");
    assert_eq!(get_config_path("/r", None), "/r/hull.json");
    assert_eq!(get_config_path("/r", Some("/etc/h.json".to_string())), "/etc/h.json");
    assert_eq!(path_join("", "x"), "x");
}

#[test]
fn paths_agree_with_std_join() {
    for root in ["/var/lib/hull", "/tmp/", "rel/dir", ""] {
        let std_path = std::path::Path::new(root).join("hull.db");
        assert_eq!(get_db_path(root), std_path.to_str().unwrap());
    }
}

#[test]
fn root_and_socket_paths() {
    assert_eq!(root_path_from(Some("/h".to_string()), Some("/x".to_string())), "/h");
    assert_eq!(root_path_from(None, Some("/home/u/.local/share".to_string())), "/home/u/.local/share/hull");
    assert_eq!(root_path_from(None, None), "/var/lib/hull");
    assert_eq!(socket_path_from("/r", None), "/r/hulld.sock");
    assert_eq!(socket_path_from("/r", Some("/s.sock".to_string())), "/s.sock");
}

#[test]
fn default_config_and_log_settings() {
    assert_eq!(Config::default_from(None).bridge_name, "hull0");
    assert_eq!(Config::default_from(Some("br9".to_string())).bridge_name, "br9");
    assert_eq!(log_format_from_name(Some("json")), LogFormat::Json);
    assert_eq!(log_format_from_name(Some("text")), LogFormat::Text);
    assert_eq!(log_format_from_name(None), LogFormat::Text);
    assert_eq!(log_level_from_name(Some("warn")), LogLevel::Warn);
    assert_eq!(log_level_from_name(Some("trace")), LogLevel::Trace);
    assert_eq!(log_level_from_name(Some("bogus")), LogLevel::Info);
    assert_eq!(log_level_from_name(None), LogLevel::Info);
}
