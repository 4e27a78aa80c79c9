use byzer_shell::conf::{
    array_to_map, jdk_home_candidate, map_to_array, parse_config, parse_config_line,
    resolve_java_home, script_request_params, show_version, ByzerConf, OsKind, ParamMap,
};

#[test]
fn array_and_map_round_trip() {
    let array = ["a", "1", "b", "2"];
    let m = array_to_map(&array);
    assert_eq!(m.len(), 2);
    assert_eq!(m.get("a").unwrap(), "1");
    assert_eq!(m.get("b").unwrap(), "2");
    assert!(m.get("c").is_none());
    let flat = map_to_array(m);
    assert_eq!(flat, vec!["a", "1", "b", "2"]);
}

#[test]
fn map_insert_replaces_in_place() {
    let mut m = ParamMap::new();
    m.insert(String::from("k"), String::from("1"));
    m.insert(String::from("l"), String::from("2"));
    m.insert(String::from("k"), String::from("3"));
    assert_eq!(m.len(), 2);
    assert_eq!(m.get("k").unwrap(), "3");
    assert_eq!(map_to_array(m), vec!["k", "3", "l", "2"]);
}

#[test]
fn config_lines() {
    assert!(parse_config_line("").is_none());
    assert!(parse_config_line("   ").is_none());
    assert!(parse_config_line("# a comment").is_none());
    assert!(parse_config_line("  # indented comment").is_none());
    assert!(parse_config_line("no separator").is_none());
    let kv = parse_config_line(" engine.url = http://h:9003 ").unwrap();
    assert_eq!(kv.0, "engine.url");
    assert_eq!(kv.1, "http://h:9003");
    let kv2 = parse_config_line("k=v=w").unwrap();
    assert_eq!(kv2.0, "k");
    assert_eq!(kv2.1, "v=w");
}

#[test]
fn config_file_later_line_wins() {
    let lines = vec![
        String::from("a=1"),
        String::from("# skip"),
        String::from("b=2"),
        String::from("a=3"),
    ];
    let m = parse_config(&lines);
    assert_eq!(m.len(), 2);
    assert_eq!(m.get("a").unwrap(), "3");
    assert_eq!(m.get("b").unwrap(), "2");
}

#[test]
fn fresh_conf_defaults() {
    let conf = ByzerConf::new(String::from("/opt/byzer"), None, String::from(""));
    assert_eq!(conf.engine_url, "http://127.0.0.1:9003");
    assert_eq!(conf.owner, "admin");
    assert!(conf.byzer_command.is_empty());
}

#[test]
fn java_command_forms() {
    let bare = ByzerConf::new(String::from("/opt/byzer"), None, String::from(""));
    assert_eq!(bare.build_java_command(OsKind::Other), "java");
    let with_home = ByzerConf::new(String::from("/opt/byzer"), None, String::from("/jdk"));
    assert_eq!(with_home.build_java_command(OsKind::Other), "/jdk/bin/java");
    let windows = ByzerConf::new(String::from("C:"), None, String::from("C:\\jdk"));
    assert_eq!(windows.build_java_command(OsKind::Windows), "C:\\jdk\\bin\\java.exe");
}

#[test]
fn jdk_candidate_paths() {
    assert_eq!(jdk_home_candidate("/opt/b", OsKind::Other), "/opt/b/jdk8");
    assert_eq!(jdk_home_candidate("/opt/b", OsKind::MacOs), "/opt/b/jdk8/Contents/Home");
    assert_eq!(
        resolve_java_home(Some(String::from("/env")), String::from("/cand"), true),
        "/env"
    );
    assert_eq!(resolve_java_home(None, String::from("/cand"), true), "/cand");
    assert_eq!(resolve_java_home(None, String::from("/cand"), false), "");
}

#[test]
fn build_reads_the_config() {
    let mut conf = ByzerConf::new(String::from("/opt/b"), None, String::from(""));
    let lines = vec![
        String::from("engine.url=http://remote:9003/"),
        String::from("user.owner=alice"),
        String::from("user.team=blue"),
        String::from("engine.spark.shuffle=8"),
        String::from("engine.memory=2g"),
    ];
    let config = parse_config(&lines);
    conf.build(&config, 9003, OsKind::Other);

    assert_eq!(conf.engine_url, "http://remote:9003/run/script");
    assert_eq!(conf.owner, "alice");
    assert_eq!(conf.request_config.get("owner").unwrap(), "alice");
    assert_eq!(conf.request_config.get("team").unwrap(), "blue");

    assert_eq!(conf.byzer_command[0], "-Xmx2g");
    assert_eq!(conf.byzer_command[1], "-cp");
    assert_eq!(
        conf.byzer_command[2],
        "/opt/b/main/*:/opt/b/libs/*:/opt/b/plugin/*:/opt/b/spark/*"
    );
    assert_eq!(conf.byzer_command[3], "streaming.core.StreamingApp");
    // the configured spark flag is carried over with its engine. prefix dropped
    let flags = &conf.byzer_command[4..];
    let pos = flags.iter().position(|f| f == "-spark.shuffle").unwrap();
    assert_eq!(flags[pos + 1], "8");
}

#[test]
fn build_without_engine_url_uses_the_port() {
    let mut conf = ByzerConf::new(String::from("/opt/b"), None, String::from(""));
    let config = ParamMap::new();
    conf.build(&config, 9007, OsKind::Other);
    assert_eq!(conf.engine_url, "http://127.0.0.1:9007/run/script");
    assert_eq!(conf.owner, "admin");
    // no heap flag: the command starts with the classpath option
    assert_eq!(conf.byzer_command[0], "-cp");
    // the stock flags follow the main class, keys and values alternating
    assert_eq!(conf.byzer_command[3], "-streaming.master");
    assert_eq!(conf.byzer_command[4], "local[*]");
    let flags = &conf.byzer_command[3..];
    let pos = flags.iter().position(|f| f == "-streaming.driver.port").unwrap();
    assert_eq!(flags[pos + 1], "9007");
    let owner_pos = flags.iter().position(|f| f == "-streaming.mlsql.script.owner").unwrap();
    assert_eq!(flags[owner_pos + 1], "admin");
}

#[test]
fn plugin_list_is_extended_not_replaced() {
    let mut conf = ByzerConf::new(String::from("/b"), None, String::from(""));
    let lines = vec![String::from("engine.streaming.plugin.clzznames=com.example.Extra")];
    let config = parse_config(&lines);
    conf.build(&config, 9003, OsKind::Other);
    let flags = &conf.byzer_command[3..];
    let pos = flags.iter().position(|f| f == "-streaming.plugin.clzznames").unwrap();
    assert!(flags[pos + 1].ends_with(",com.example.Extra"));
    assert!(flags[pos + 1].starts_with("tech.mlsql.plugins.ds.MLSQLExcelApp"));
}

#[test]
fn version_probe_classification() {
    assert!(show_version("Fail to execute caused by connection refused").is_none());
    let ok = show_version("[{\"version\":\"2.3.0\"}]").unwrap();
    assert_eq!(ok, "[{\"version\":\"2.3.0\"}]");
}

#[test]
fn script_request_parameter_assembly() {
    let mut extra = ParamMap::new();
    extra.insert(String::from("jobName"), String::from("j1"));
    extra.insert(String::from("sql"), String::from("override"));
    let params = script_request_params("select 1;", "admin", &extra);
    assert_eq!(params.get("sql").unwrap(), "override");
    assert_eq!(params.get("owner").unwrap(), "admin");
    assert_eq!(params.get("outputSize").unwrap(), "50");
    assert_eq!(params.get("jobName").unwrap(), "j1");
}
