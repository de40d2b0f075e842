use clfc::config::Config;
use clfc::config::Launch;
use clfc::json::launch_json_pretty;

fn strings(items: &[&str]) -> Vec<String> {
    items.iter().map(|s| s.to_string()).collect()
}

fn document(program: &str, cwd: &str, args: &[&str]) -> String {
    let config = Config::new(program.to_string(), cwd.to_string(), strings(args));
    let launch = Launch::new(config);
    launch_json_pretty(&launch)
}

#[test]
fn two_arguments_render_exactly() {
    let out = document("/tmp/a.out", "/work", &["x", "y"]);
    let expected = "{\n  \"configurations\": [\n    {\n      \"name\": \"c++ launch\",\n      \"type\": \"cppdbg\",\n      \"request\": \"launch\",\n      \"args\": [\n        \"x\",\n        \"y\"\n      ],\n      \"program\": \"/tmp/a.out\",\n      \"cwd\": \"/work\",\n      \"setupCommands\": [\n        {\n          \"description\": \"Enable pretty-printing for gdb\",\n          \"text\": \"-enable-pretty-printing\",\n          \"ignoreFailures\": true\n        }\n      ]\n    }\n  ]\n}";
    assert_eq!(out, expected);
}

#[test]
fn empty_arguments_render_as_empty_array() {
    let out = document("/tmp/a.out", "/work", &[]);
    assert!(out.contains("\"args\": [],"));
}

#[test]
fn string_values_are_escaped() {
    let out = document("/tmp/a.out", "/work", &["he said \"hi\"", "back\\slash", "tab\there"]);
    assert!(out.contains("        \"he said \\\"hi\\\"\","));
    assert!(out.contains("        \"back\\\\slash\","));
    assert!(out.contains("        \"tab\\there\""));
}

#[test]
fn control_characters_take_four_digit_escapes() {
    let out = document("/tmp/a.out", "/work", &["a\u{1}b", "c\u{1f}d", "e\nf"]);
    assert!(out.contains("\"a\\u0001b\""));
    assert!(out.contains("\"c\\u001fd\""));
    assert!(out.contains("\"e\\nf\""));
}

#[test]
fn quoted_arguments_render_with_escaped_quotes() {
    let config = Config::new_with_options(
        "/tmp/a.out".to_string(),
        "/work".to_string(),
        strings(&["x"]),
        true,
        true,
    );
    let out = launch_json_pretty(&Launch::new(config));
    assert!(out.contains("        \"\\\"x\\\"\""));
    assert!(out.contains("\"cwd\": \"${workspaceRoot}\","));
}

#[test]
fn round_trip_yields_one_configuration() {
    let out = document("/tmp/a.out", "/work", &["x", "y"]);
    let value: serde_json::Value = serde_json::from_str(&out).unwrap();
    let configurations = value.get("configurations").unwrap().as_array().unwrap();
    assert_eq!(configurations.len(), 1);
    let config = &configurations[0];
    assert_eq!(config.get("type").unwrap().as_str().unwrap(), "cppdbg");
    assert_eq!(config.get("request").unwrap().as_str().unwrap(), "launch");
    assert_eq!(config.get("name").unwrap().as_str().unwrap(), "c++ launch");
}

#[test]
fn round_trip_keeps_program_and_arguments() {
    let out = document("/tmp/a.out", "/work", &["x", "y"]);
    let value: serde_json::Value = serde_json::from_str(&out).unwrap();
    let config = &value.get("configurations").unwrap().as_array().unwrap()[0];
    assert_eq!(config.get("program").unwrap().as_str().unwrap(), "/tmp/a.out");
    assert_eq!(config.get("cwd").unwrap().as_str().unwrap(), "/work");
    let args: Vec<&str> = config
        .get("args")
        .unwrap()
        .as_array()
        .unwrap()
        .iter()
        .map(|v| v.as_str().unwrap())
        .collect();
    assert_eq!(args, vec!["x", "y"]);
    let setup = config.get("setupCommands").unwrap().as_array().unwrap();
    assert_eq!(setup.len(), 1);
    assert_eq!(setup[0].get("ignoreFailures").unwrap().as_bool().unwrap(), true);
    assert_eq!(setup[0].get("text").unwrap().as_str().unwrap(), "-enable-pretty-printing");
}

#[test]
fn round_trip_restores_escaped_values() {
    let originals = ["he said \"hi\"", "back\\slash", "line\nbreak", "bell\u{7}", "h\u{e9}llo"];
    let out = document("/tmp/a.out", "/work", &originals);
    let value: serde_json::Value = serde_json::from_str(&out).unwrap();
    let config = &value.get("configurations").unwrap().as_array().unwrap()[0];
    let args: Vec<&str> = config
        .get("args")
        .unwrap()
        .as_array()
        .unwrap()
        .iter()
        .map(|v| v.as_str().unwrap())
        .collect();
    assert_eq!(args, originals.to_vec());
}
