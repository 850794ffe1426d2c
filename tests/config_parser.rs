use wei_daemon::config_parser::{ConfigError, ConfigParser, ProcessConfig};
use wei_daemon::restart_policy::ProcessRestartPolicy;

fn lines_of(content: &str) -> Vec<String> {
    content.lines().map(|l| l.to_string()).collect()
}

fn parser(suffix: &str) -> ConfigParser {
    ConfigParser::new("daemon.dat".to_string(), "/srv".to_string(), suffix.to_string())
}

#[test]
fn test_simple_format_parsing() {
    let content = r#"
# 这是注释
app1
app2

# 另一个注释
app3
"#;
    let mut parser = parser("");
    let configs = parser.load_config(&lines_of(content), Some(1)).unwrap();

    assert_eq!(configs.len(), 3);
    assert!(configs.contains_key("app1"));
    assert!(configs.contains_key("app2"));
    assert!(configs.contains_key("app3"));
}

#[test]
fn test_extended_format_parsing() {
    let content = "web-server:./server.exe:.:--port=8080:5\n";
    let mut parser = parser("");
    let configs = parser.load_config(&lines_of(content), Some(1)).unwrap();

    assert_eq!(configs.len(), 1);
    let config = configs.get("web-server").unwrap();
    assert_eq!(config.executable_path, "./server.exe");
    assert_eq!(config.arguments, vec!["--port=8080"]);
    assert_eq!(config.restart_policy.max_restarts, 5);
}

#[test]
fn simple_line_takes_defaults() {
    let p = parser(".exe");
    let c = p.parse_line("  svc-a  ", 1).unwrap().unwrap();
    assert_eq!(c.name, "svc-a");
    assert_eq!(c.executable_path, "svc-a.exe");
    assert_eq!(c.working_directory, "/srv/svc-a");
    assert!(c.arguments.is_empty());
    assert_eq!(c.restart_policy, ProcessRestartPolicy::default());
    assert_eq!(c.restart_policy.max_restarts, 3);
    assert_eq!(c.restart_policy.restart_delay_ms, 2000);
    assert_eq!(c.restart_policy.backoff_multiplier_milli, 2000);
    assert_eq!(c.restart_policy.max_restart_delay_ms, 60000);
}

#[test]
fn extended_with_empty_fields_equals_simple_form() {
    let p = parser(".exe");
    let simple = p.parse_line("svc-a", 1).unwrap().unwrap();
    for line in ["svc-a:", "svc-a::", "svc-a::::", "svc-a:::::", " svc-a : : : : "] {
        let ext = p.parse_line(line, 1).unwrap().unwrap();
        assert_eq!(ext.name, simple.name);
        assert_eq!(ext.executable_path, simple.executable_path);
        assert_eq!(ext.working_directory, simple.working_directory);
        assert_eq!(ext.arguments, simple.arguments);
        assert_eq!(ext.restart_policy, simple.restart_policy);
        assert_eq!(ext.environment_vars, simple.environment_vars);
    }
}

#[test]
fn dot_working_directory_keeps_default() {
    let p = parser("");
    let c = p.parse_line("web:./server:.:", 1).unwrap().unwrap();
    assert_eq!(c.working_directory, "/srv/web");
    let d = p.parse_line("db:../db/database:../db:--data-dir=./data  -v:3", 1).unwrap().unwrap();
    assert_eq!(d.executable_path, "../db/database");
    assert_eq!(d.working_directory, "../db");
    assert_eq!(d.arguments, vec!["--data-dir=./data", "-v"]);
    assert_eq!(d.restart_policy.max_restarts, 3);
}

#[test]
fn comments_and_blank_lines_are_ignored() {
    let p = parser("");
    assert!(p.parse_line("", 1).unwrap().is_none());
    assert!(p.parse_line("   \t ", 2).unwrap().is_none());
    assert!(p.parse_line("# note: not a process", 3).unwrap().is_none());
    assert!(p.parse_line("   # indented comment", 4).unwrap().is_none());
}

#[test]
fn missing_name_is_an_error() {
    let p = parser("");
    assert_eq!(p.parse_line(":server", 7).err(), Some(ConfigError::MissingName { line: 7 }));
    assert_eq!(p.parse_line("  : :", 2).err(), Some(ConfigError::MissingName { line: 2 }));
}

#[test]
fn bad_max_restarts_is_an_error_naming_the_line() {
    let mut p = parser("");
    let lines = lines_of("a\nb:x:.:--v:many\nc\n");
    let loaded = p.load_config(&lines, Some(1)).unwrap();
    assert_eq!(loaded.len(), 2);
    assert!(loaded.contains_key("a") && loaded.contains_key("c") && !loaded.contains_key("b"));
    assert_eq!(loaded.errors(), &vec![ConfigError::InvalidMaxRestarts { line: 2 }]);
    assert_eq!(p.parse_line("b:x:.::-1", 9).err(), Some(ConfigError::InvalidMaxRestarts { line: 9 }));
    assert_eq!(p.parse_line("b:x:.::4294967296", 9).err(), Some(ConfigError::InvalidMaxRestarts { line: 9 }));
    assert_eq!(p.parse_line("b:x:.::+", 9).err(), Some(ConfigError::InvalidMaxRestarts { line: 9 }));
}

#[test]
fn max_restarts_accepts_plus_sign_and_largest_value() {
    let p = parser("");
    let c = p.parse_line("b:x:.::+7", 1).unwrap().unwrap();
    assert_eq!(c.restart_policy.max_restarts, 7);
    let d = p.parse_line("b:x:.::4294967295", 1).unwrap().unwrap();
    assert_eq!(d.restart_policy.max_restarts, u32::MAX);
    let e = p.parse_line("b:x:.::0", 1).unwrap().unwrap();
    assert_eq!(e.restart_policy.max_restarts, 0);
}

#[test]
fn duplicate_name_keeps_last_and_reports_line() {
    let mut p = parser("");
    let lines = lines_of("svc\nother\nsvc:./second\n");
    let configs = p.load_config(&lines, Some(5)).unwrap();
    assert_eq!(configs.len(), 2);
    assert_eq!(configs.get("svc").unwrap().executable_path, "./second");
    assert_eq!(configs.duplicate_lines(), &vec![3usize]);
    assert_eq!(configs.configs()[0].name, "svc");
    assert_eq!(configs.configs()[1].name, "other");
}

#[test]
fn config_change_tracking() {
    let mut p = parser("");
    assert!(p.has_config_changed(Some(10)));
    p.load_config(&lines_of("a\n"), Some(10)).unwrap();
    assert!(!p.has_config_changed(Some(10)));
    assert!(!p.has_config_changed(Some(9)));
    assert!(p.has_config_changed(Some(11)));
    assert!(p.has_config_changed(None));
    assert_eq!(p.get_config_file_path(), "daemon.dat");
}

#[test]
fn builders_replace_fields() {
    let c = ProcessConfig::new("x".to_string(), "/srv", "")
        .with_executable_path("/bin/x".to_string())
        .with_working_directory("/tmp".to_string())
        .with_arguments(vec!["-a".to_string()]);
    assert_eq!(c.executable_path, "/bin/x");
    assert_eq!(c.working_directory, "/tmp");
    assert_eq!(c.arguments, vec!["-a"]);
}

#[test]
fn environment_vars_replace_in_place() {
    let c = ProcessConfig::new("x".to_string(), "/srv", "")
        .with_environment_var("A".to_string(), "1".to_string())
        .with_environment_var("B".to_string(), "2".to_string())
        .with_environment_var("A".to_string(), "3".to_string());
    assert_eq!(
        c.environment_vars,
        vec![("A".to_string(), "3".to_string()), ("B".to_string(), "2".to_string())]
    );
}

#[test]
fn full_executable_path_is_normalized() {
    let c = ProcessConfig::new("svc".to_string(), "/srv", ".exe");
    assert_eq!(c.working_directory, "/srv/svc");
    assert_eq!(c.get_full_executable_path(), "/srv/svc/svc.exe");
    assert_eq!(ProcessConfig::new("svc".to_string(), "/", "").working_directory, "/svc");
    assert_eq!(ProcessConfig::new("svc".to_string(), "", "").working_directory, "svc");
    assert_eq!(ProcessConfig::new("svc".to_string(), "C:\\apps", "").working_directory, "C:\\apps/svc");
    let d = c.with_working_directory("/opt/apps/./svc/".to_string()).with_executable_path("./bin/../run".to_string());
    assert_eq!(d.get_full_executable_path(), "/opt/apps/svc/run");
    let e = d.with_executable_path("/usr//bin/tool".to_string());
    assert_eq!(e.get_full_executable_path(), "/usr/bin/tool");
    let f = e.with_working_directory("".to_string()).with_executable_path("a/../../b".to_string());
    assert_eq!(f.get_full_executable_path(), "../b");
}

#[test]
fn bad_line_does_not_drop_good_ones() {
    let mut p = parser("");
    let loaded = p.load_config(&lines_of("b\na::::x\n"), Some(3)).unwrap();
    assert_eq!(loaded.len(), 1);
    assert!(loaded.contains_key("b"));
    assert_eq!(loaded.errors(), &vec![ConfigError::InvalidMaxRestarts { line: 2 }]);
    assert!(!p.has_config_changed(Some(3)));
}

#[test]
fn load_fails_when_nothing_parses_and_a_line_was_refused() {
    let mut p = parser("");
    let lines = lines_of("# only bad lines\n:x\ny::::z\n");
    assert_eq!(p.load_config(&lines, Some(4)).err(), Some(ConfigError::MissingName { line: 2 }));
    assert!(p.has_config_changed(Some(4)));
    let empty = p.load_config(&lines_of("# nothing\n\n"), Some(5)).unwrap();
    assert_eq!(empty.len(), 0);
    assert!(empty.errors().is_empty());
}
