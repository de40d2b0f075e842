use clfc::config::Config;
use clfc::config::Launch;

fn strings(items: &[&str]) -> Vec<String> {
    items.iter().map(|s| s.to_string()).collect()
}

#[test]
fn config_new_fills_the_fixed_fields() {
    let config = Config::new("/tmp/a.out".to_string(), "/work".to_string(), strings(&["x", "y"]));
    assert_eq!(config.name, "c++ launch");
    assert_eq!(config.config_type, "cppdbg");
    assert_eq!(config.request, "launch");
    assert_eq!(config.program, "/tmp/a.out");
    assert_eq!(config.cwd, "/work");
    assert_eq!(config.args, strings(&["x", "y"]));
    assert_eq!(config.setup_commands.len(), 1);
    assert_eq!(config.setup_commands[0].description, "Enable pretty-printing for gdb");
    assert_eq!(config.setup_commands[0].text, "-enable-pretty-printing");
    assert!(config.setup_commands[0].ignore_failures);
}

#[test]
fn options_quote_arguments_and_use_placeholder() {
    let config = Config::new_with_options(
        "/tmp/a.out".to_string(),
        "/work".to_string(),
        strings(&["x", "y"]),
        true,
        true,
    );
    assert_eq!(config.args, strings(&["\"x\"", "\"y\""]));
    assert_eq!(config.cwd, "${workspaceRoot}");
    assert_eq!(config.program, "/tmp/a.out");
}

#[test]
fn options_off_match_the_plain_constructor() {
    let with_options = Config::new_with_options(
        "/tmp/a.out".to_string(),
        "/work".to_string(),
        strings(&["x"]),
        false,
        false,
    );
    let plain = Config::new("/tmp/a.out".to_string(), "/work".to_string(), strings(&["x"]));
    assert_eq!(with_options.args, plain.args);
    assert_eq!(with_options.cwd, plain.cwd);
    assert_eq!(with_options.program, plain.program);
}

#[test]
fn launch_new_wraps_one_configuration() {
    let config = Config::new("/tmp/a.out".to_string(), "/work".to_string(), strings(&[]));
    let launch = Launch::new(config);
    assert_eq!(launch.configurations.len(), 1);
    assert_eq!(launch.configurations[0].program, "/tmp/a.out");
}
