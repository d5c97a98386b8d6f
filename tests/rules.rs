use boxxy::rule::{BinaryProbe, BoxxyRules, Rule, RuleError, RuleMode, RuleProbe};

fn rule(name: &str, context: Vec<&str>, only: Vec<&str>) -> Rule {
    Rule {
        name: name.to_string(),
        target: "/tmp/sandbox-test/a".to_string(),
        rewrite: "/tmp/sandbox-test/b".to_string(),
        mode: RuleMode::Directory,
        context: context.into_iter().map(String::from).collect(),
        only: only.into_iter().map(String::from).collect(),
        env: vec![],
    }
}

fn probe() -> BinaryProbe {
    BinaryProbe {
        expanded_program: Some("/work/prog".to_string()),
        canonical_entry: None,
        resolved_entry: None,
        resolved_program: Some("/work/prog".to_string()),
        which_entry: None,
        which_program: None,
    }
}

#[test]
fn binary_matches_by_file_name() {
    let r = rule("r", vec![], vec!["/usr/bin/ls"]);
    assert_eq!(r.test_program("ls", "/usr/bin/ls", &probe()), Ok(true));
}

#[test]
fn binary_matches_by_full_string() {
    let r = rule("r", vec![], vec!["./ls"]);
    assert_eq!(r.test_program("./ls", "./ls", &probe()), Ok(true));
}

#[test]
fn binary_matches_by_canonical_path() {
    let r = rule("r", vec![], vec!["/bin/ls"]);
    let mut p = probe();
    p.expanded_program = Some("/usr/bin/ls".to_string());
    p.canonical_entry = Some("/usr/bin/ls".to_string());
    assert_eq!(r.test_program("/usr/local/ls-link", "/bin/ls", &p), Ok(true));
}

#[test]
fn binary_matches_by_resolved_symlinks() {
    let r = rule("r", vec![], vec!["/bin/vi"]);
    let mut p = probe();
    p.expanded_program = Some("/usr/bin/vim".to_string());
    p.canonical_entry = Some("/usr/bin/vi".to_string());
    p.resolved_entry = Some("/usr/bin/vim.basic".to_string());
    p.resolved_program = Some("/usr/bin/vim.basic".to_string());
    assert_eq!(r.test_program("vim", "/bin/vi", &p), Ok(true));
}

#[test]
fn binary_matches_unresolvable_entry_by_program_file_name() {
    let r = rule("r", vec![], vec!["prog"]);
    let mut p = probe();
    p.resolved_program = Some("/work/prog".to_string());
    assert_eq!(r.test_program("./sub/../prog", "prog", &p), Ok(true));
}

#[test]
fn binary_matches_by_path_lookup() {
    let r = rule("r", vec![], vec!["tool"]);
    let mut p = probe();
    p.resolved_program = Some("/work/other".to_string());
    p.which_entry = Some("/usr/bin/tool".to_string());
    p.which_program = Some("/usr/bin/tool".to_string());
    assert_eq!(r.test_program("t", "tool", &p), Ok(true));
    p.which_program = None;
    assert_eq!(r.test_program("t", "tool", &p), Ok(false));
    p.which_entry = None;
    assert_eq!(r.test_program("t", "tool", &p), Ok(false));
}

#[test]
fn binary_match_fails_when_program_unresolved() {
    let r = rule("r", vec![], vec!["tool"]);
    let mut p = probe();
    p.expanded_program = None;
    assert_eq!(r.test_program("t", "tool", &p), Err(RuleError::ProgramUnresolved));
    let mut p = probe();
    p.canonical_entry = Some("/x/tool".to_string());
    p.resolved_entry = None;
    assert_eq!(r.test_program("t", "tool", &p), Err(RuleError::EntryUnresolved));
}

#[test]
fn only_ls_applies_to_ls_not_cat() {
    let r = rule("r", vec![], vec!["ls"]);
    let mut for_ls = probe();
    for_ls.resolved_program = Some("/usr/bin/ls".to_string());
    assert_eq!(r.applies_to_binary("ls", &vec![for_ls]), Ok(true));
    let mut for_cat = probe();
    for_cat.resolved_program = Some("/usr/bin/cat".to_string());
    for_cat.which_entry = Some("/usr/bin/ls".to_string());
    for_cat.which_program = Some("/usr/bin/cat".to_string());
    assert_eq!(r.applies_to_binary("cat", &vec![for_cat]), Ok(false));
}

#[test]
fn empty_only_applies_to_everything() {
    let r = rule("r", vec![], vec![]);
    assert_eq!(r.applies_to_binary("anything", &vec![]), Ok(true));
}

#[test]
fn only_needs_one_probe_per_entry() {
    let r = rule("r", vec![], vec!["a", "b"]);
    assert_eq!(r.applies_to_binary("c", &vec![probe()]), Err(RuleError::MissingProbe));
}

#[test]
fn context_filters_by_working_directory() {
    let r = rule("r", vec!["/tmp/ctx-yes"], vec![]);
    let resolved = vec![Some("/tmp/ctx-yes".to_string())];
    assert_eq!(r.currently_in_context("/tmp/ctx-no", &resolved), Ok(false));
    assert_eq!(r.currently_in_context("/tmp/ctx-yes", &resolved), Ok(true));
    assert_eq!(r.currently_in_context("/tmp/ctx-yes/deeper", &resolved), Ok(true));
}

#[test]
fn empty_context_is_everywhere_and_unresolved_is_an_error() {
    let r = rule("r", vec![], vec![]);
    assert_eq!(r.currently_in_context("/x", &vec![]), Ok(true));
    let r = rule("r", vec!["/missing", "/tmp"], vec![]);
    assert_eq!(r.currently_in_context("/tmp", &vec![None, Some("/tmp".to_string())]), Err(RuleError::ContextUnresolved));
    assert_eq!(r.currently_in_context("/tmp", &vec![Some("/tmp".to_string()), None]), Ok(true));
}

#[test]
fn applicable_rules_keep_ruleset_order() {
    let rules = BoxxyRules {
        rules: vec![rule("first", vec![], vec!["ls"]), rule("second", vec![], vec!["cat"]), rule("third", vec![], vec![])],
    };
    let mut ls = probe();
    ls.resolved_program = Some("/usr/bin/ls".to_string());
    let probes = vec![
        RuleProbe { contexts: vec![], binaries: vec![ls.clone()] },
        RuleProbe { contexts: vec![], binaries: vec![ls.clone()] },
        RuleProbe { contexts: vec![], binaries: vec![] },
    ];
    let got = rules.get_all_applicable_rules("/home", "ls", &probes).unwrap();
    let names: Vec<String> = got.iter().map(|r| r.name.clone()).collect();
    assert_eq!(names, vec!["first", "third"]);
}

#[test]
fn applicable_rules_ignore_context_when_binary_applies() {
    let rules = BoxxyRules { rules: vec![rule("ctx", vec!["/tmp/ctx-yes"], vec![])] };
    let probes = vec![RuleProbe { contexts: vec![Some("/tmp/ctx-yes".to_string())], binaries: vec![] }];
    let got = rules.get_all_applicable_rules("/tmp/ctx-no", "ls", &probes).unwrap();
    assert_eq!(got.len(), 1);
}

#[test]
fn applicable_rules_report_errors_and_missing_probes() {
    let rules = BoxxyRules { rules: vec![rule("ctx", vec!["/gone"], vec![])] };
    let probes = vec![RuleProbe { contexts: vec![None], binaries: vec![] }];
    assert_eq!(rules.get_all_applicable_rules("/", "ls", &probes).unwrap_err(), RuleError::ContextUnresolved);
    assert_eq!(rules.get_all_applicable_rules("/", "ls", &vec![]).unwrap_err(), RuleError::MissingProbe);
}

#[test]
fn duplicate_copies_every_field() {
    let mut r = rule("dup", vec!["/c"], vec!["ls"]);
    r.env = vec![("K".to_string(), "V".to_string())];
    let d = r.duplicate();
    assert_eq!(d.name, "dup");
    assert_eq!(d.context, vec!["/c"]);
    assert_eq!(d.only, vec!["ls"]);
    assert_eq!(d.env, vec![("K".to_string(), "V".to_string())]);
    assert_eq!(d.mode, RuleMode::Directory);
}
