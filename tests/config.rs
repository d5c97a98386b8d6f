use boxxy::config::{BoxxyConfig, CommandSpec, ConfigError};
use boxxy::rule::{BoxxyRules, Rule, RuleMode};

fn named(name: &str) -> Rule {
    Rule {
        name: name.to_string(),
        target: format!("/t/{name}"),
        rewrite: format!("/r/{name}"),
        mode: RuleMode::File,
        context: vec![],
        only: vec![],
        env: vec![],
    }
}

fn names(r: &BoxxyRules) -> Vec<String> {
    r.rules.iter().map(|r| r.name.clone()).collect()
}

#[test]
fn merge_with_empty_is_identity() {
    let merged = BoxxyConfig::merge(vec![BoxxyRules { rules: vec![named("r")] }, BoxxyRules { rules: vec![] }]);
    assert_eq!(names(&merged), vec!["r"]);
    assert_eq!(merged.rules[0].target, "/t/r");
}

#[test]
fn merge_keeps_order_and_duplicates() {
    let merged = BoxxyConfig::merge(vec![
        BoxxyRules { rules: vec![named("a"), named("b")] },
        BoxxyRules { rules: vec![named("c")] },
        BoxxyRules { rules: vec![named("a")] },
    ]);
    assert_eq!(names(&merged), vec!["a", "b", "c", "a"]);
    assert_eq!(names(&BoxxyConfig::merge(vec![])), Vec::<String>::new());
}

#[test]
fn cli_rule_without_mode_is_a_file_rule() {
    let rules = BoxxyConfig::load_rules_from_cli_flag(&["~/.aws:~/.config/aws".to_string()]).unwrap();
    assert_eq!(rules.rules.len(), 1);
    let r = &rules.rules[0];
    assert_eq!(r.name, "cli-loaded rule: ~/.aws -> ~/.config/aws");
    assert_eq!(r.target, "~/.aws");
    assert_eq!(r.rewrite, "~/.config/aws");
    assert_eq!(r.mode, RuleMode::File);
    assert!(r.context.is_empty() && r.only.is_empty() && r.env.is_empty());
}

#[test]
fn cli_rule_mode_is_case_insensitive() {
    let rules = BoxxyConfig::load_rules_from_cli_flag(&[
        "/a:/b:directory".to_string(),
        "/c:/d:DIRECTORY".to_string(),
        "/e:/f:File".to_string(),
    ])
    .unwrap();
    assert_eq!(rules.rules[0].mode, RuleMode::Directory);
    assert_eq!(rules.rules[0].name, "cli-loaded rule: /a -> /b (directory)");
    assert_eq!(rules.rules[1].mode, RuleMode::Directory);
    assert_eq!(rules.rules[2].mode, RuleMode::File);
}

#[test]
fn cli_rule_errors() {
    assert_eq!(BoxxyConfig::load_rules_from_cli_flag(&["/a".to_string()]).unwrap_err(), ConfigError::InvalidCliRule);
    assert_eq!(BoxxyConfig::load_rules_from_cli_flag(&["/a:/b:/c:/d".to_string()]).unwrap_err(), ConfigError::InvalidCliRule);
    assert_eq!(BoxxyConfig::load_rules_from_cli_flag(&["/a:/b:bogus".to_string()]).unwrap_err(), ConfigError::InvalidMode);
    assert_eq!(BoxxyConfig::load_rules_from_cli_flag(&[]).unwrap().rules.len(), 0);
    assert_eq!(BoxxyConfig::load_rules_from_cli_flag(&[":/b".to_string()]).unwrap_err(), ConfigError::InvalidCliRule);
    assert_eq!(BoxxyConfig::load_rules_from_cli_flag(&["/a::file".to_string()]).unwrap_err(), ConfigError::InvalidCliRule);
}

#[test]
fn rules_need_target_and_rewrite() {
    assert!(named("x").is_well_formed());
    let mut r = named("x");
    r.rewrite = String::new();
    assert!(!r.is_well_formed());
}

#[test]
fn config_file_names_and_paths() {
    assert_eq!(BoxxyConfig::default_config_file_name(false), "boxxy.yaml");
    assert_eq!(BoxxyConfig::default_config_file_name(true), "boxxy-dev.yaml");
    assert_eq!(BoxxyConfig::default_config_path("/home/u/.config", false), "/home/u/.config/boxxy/boxxy.yaml");
    assert!(BoxxyConfig::debug_mode("/src/boxxy/target/debug/boxxy"));
    assert!(!BoxxyConfig::debug_mode("/usr/bin/boxxy"));
}

#[test]
fn rule_paths_search_upwards() {
    let paths = BoxxyConfig::rule_paths("/home/u/.config", "/home/u/p", false);
    assert_eq!(
        paths,
        vec![
            "/home/u/.config/boxxy/boxxy.yaml",
            "/home/u/p/boxxy.yaml",
            "/home/u/boxxy.yaml",
            "/home/boxxy.yaml",
            "/boxxy.yaml",
        ]
    );
}

#[test]
fn set_env_replaces_or_appends() {
    let mut c = CommandSpec { program: "ls".to_string(), args: vec![], env: vec![("A".to_string(), "1".to_string())] };
    c.set_env("B".to_string(), "2".to_string());
    c.set_env("A".to_string(), "3".to_string());
    assert_eq!(c.env, vec![("A".to_string(), "3".to_string()), ("B".to_string(), "2".to_string())]);
    assert_eq!(c.program, "ls");
}
