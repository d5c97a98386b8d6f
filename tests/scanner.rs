use boxxy::rule::RuleMode;
use boxxy::scanner::{rule_from_fix, App, Scanner};

fn app(name: &str, paths: Vec<&str>, fixes: Vec<&str>) -> App {
    App {
        name: name.to_string(),
        paths: paths.into_iter().map(String::from).collect(),
        fixes: fixes.into_iter().map(String::from).collect(),
    }
}

#[test]
fn fix_becomes_a_rule() {
    let r = rule_from_fix("aws", "~/.aws:~/.config/aws", true).unwrap();
    assert_eq!(r.name, "aws");
    assert_eq!(r.target, "~/.aws");
    assert_eq!(r.rewrite, "~/.config/aws");
    assert_eq!(r.mode, RuleMode::Directory);
    let r = rule_from_fix("x", "~/.xrc:~/.config/x/rc:extra", false).unwrap();
    assert_eq!(r.target, "~/.xrc");
    assert_eq!(r.rewrite, "~/.config/x/rc:extra");
    assert_eq!(r.mode, RuleMode::File);
    assert!(rule_from_fix("x", "no-colon", false).is_none());
}

#[test]
fn suggested_rules_follow_fixes() {
    let a = app("tool", vec!["~/.tool"], vec!["~/.tool:~/.config/tool", "~/.toolrc:~/.config/tool/rc"]);
    let rules = a.suggested_rules(&vec![true, false]).unwrap();
    assert_eq!(rules.len(), 2);
    assert_eq!(rules[0].mode, RuleMode::Directory);
    assert_eq!(rules[1].target, "~/.toolrc");
    assert!(a.suggested_rules(&vec![true]).is_none());
}

#[test]
fn scan_reports_present_apps_per_path() {
    let s = Scanner::new(vec![app("a", vec!["~/.a", "~/.a2"], vec![]), app("b", vec!["~/.b"], vec![])]);
    let found = s.scan(&vec![vec![true, true], vec![false]]).unwrap();
    let names: Vec<String> = found.iter().map(|a| a.name.clone()).collect();
    assert_eq!(names, vec!["a", "a"]);
    assert!(s.scan(&vec![vec![true]]).is_none());
    assert!(s.scan(&vec![vec![true], vec![false]]).is_none());
}
