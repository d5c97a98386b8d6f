use boxxy::config::{BoxxyConfig, CommandSpec};
use boxxy::enclosure::{
    next_wait_step, stack_size, Enclosure, EnclosureError, EndpointAction, EntryStep, WaitOutcome, WaitStep,
    DEFAULT_STACK_SIZE,
};
use boxxy::rule::{BoxxyRules, Rule, RuleMode};

fn config(trace: bool, immutable_root: bool, dotenv: bool) -> BoxxyConfig {
    BoxxyConfig {
        rules: BoxxyRules { rules: vec![] },
        immutable_root,
        trace,
        dotenv,
        daemon: false,
        command: CommandSpec { program: "ls".to_string(), args: vec![], env: vec![] },
    }
}

fn env_rule(env: Vec<(&str, &str)>) -> Rule {
    Rule {
        name: "e".to_string(),
        target: "/a".to_string(),
        rewrite: "/b".to_string(),
        mode: RuleMode::Directory,
        context: vec![],
        only: vec![],
        env: env.into_iter().map(|(k, v)| (k.to_string(), v.to_string())).collect(),
    }
}

#[test]
fn new_enclosure_has_a_name_and_nothing_created() {
    let e = Enclosure::new(config(false, false, false));
    assert!(!e.name.is_empty());
    assert_eq!(e.child_exit_status, -1);
    assert!(e.created_files.is_empty() && e.created_directories.is_empty());
}

#[test]
fn container_paths() {
    let e = Enclosure::with_name(config(false, false, false), "bold-snow-1234".to_string());
    assert_eq!(e.container_root(), "/tmp/boxxy-containers/bold-snow-1234");
    assert_eq!(e.container_target("/tmp/sandbox-test/a"), "/tmp/boxxy-containers/bold-snow-1234/tmp/sandbox-test/a");
}

#[test]
fn second_setup_creates_nothing() {
    let mut e = Enclosure::with_name(config(false, false, false), "n".to_string());
    let a = e.note_endpoint("/tmp/sandbox-test/b".to_string(), RuleMode::Directory, false);
    assert!(matches!(a, EndpointAction::CreateDirectory(p) if p == "/tmp/sandbox-test/b"));
    let a = e.note_endpoint("/tmp/sandbox-test/y.cfg".to_string(), RuleMode::File, false);
    assert!(matches!(a, EndpointAction::CreateFile(p) if p == "/tmp/sandbox-test/y.cfg"));
    assert_eq!(e.created_directories, vec!["/tmp/sandbox-test/b"]);
    assert_eq!(e.created_files, vec!["/tmp/sandbox-test/y.cfg"]);

    let mut again = Enclosure::with_name(config(false, false, false), "m".to_string());
    assert!(matches!(again.note_endpoint("/tmp/sandbox-test/b".to_string(), RuleMode::Directory, true), EndpointAction::Keep));
    assert!(matches!(again.note_endpoint("/tmp/sandbox-test/y.cfg".to_string(), RuleMode::File, true), EndpointAction::Keep));
    assert!(again.created_files.is_empty() && again.created_directories.is_empty());
}

#[test]
fn rule_env_is_injected_in_rule_order() {
    let mut e = Enclosure::with_name(config(false, false, false), "n".to_string());
    e.inject_rule_env(&[env_rule(vec![("A", "1"), ("B", "2")]), env_rule(vec![("A", "3")])]);
    assert_eq!(e.config.command.env, vec![("A".to_string(), "3".to_string()), ("B".to_string(), "2".to_string())]);
}

#[test]
fn dotenv_is_applied_only_when_enabled() {
    let mut off = Enclosure::with_name(config(false, false, false), "n".to_string());
    assert_eq!(off.apply_dotenv("KEY=value\n"), Ok(0));
    assert!(off.config.command.env.is_empty());

    let mut on = Enclosure::with_name(config(false, false, true), "n".to_string());
    assert_eq!(on.apply_dotenv("B=2\nA=\"one\"\n"), Ok(2));
    assert_eq!(on.config.command.env, vec![("A".to_string(), "one".to_string()), ("B".to_string(), "2".to_string())]);
}

#[test]
fn unparsable_dotenv_is_an_error() {
    let mut on = Enclosure::with_name(config(false, false, true), "n".to_string());
    assert_eq!(on.apply_dotenv("1BAD=x\n"), Err(EnclosureError::UnparsableDotenv));
    assert!(on.config.command.env.is_empty());
}

#[test]
fn stack_size_falls_back_to_eight_mib() {
    assert_eq!(stack_size(Some(4096)), 4096);
    assert_eq!(stack_size(None), 8 * 1024 * 1024);
    assert_eq!(DEFAULT_STACK_SIZE, 8 * 1024 * 1024);
}

#[test]
fn wait_loop_decisions() {
    assert_eq!(next_wait_step(-1, WaitOutcome::Exited(3)), WaitStep::Finish { status: 3, pause: false });
    assert_eq!(next_wait_step(-1, WaitOutcome::NoChild), WaitStep::Finish { status: -1, pause: true });
    assert_eq!(next_wait_step(-1, WaitOutcome::Other), WaitStep::Retry);
}

#[test]
fn entry_steps_depend_on_mode() {
    let e = Enclosure::with_name(config(true, false, false), "n".to_string());
    let steps = e.entry_steps("/home/u");
    assert_eq!(steps.len(), 4);
    assert!(matches!(&steps[0], EntryStep::Chroot(p) if p == "/tmp/boxxy-containers/n"));
    assert!(matches!(&steps[1], EntryStep::ChangeDir(p) if p == "/home/u"));
    assert!(matches!(steps[2], EntryStep::AwaitParent));
    assert!(matches!(steps[3], EntryStep::RunCommand));

    let e = Enclosure::with_name(config(false, true, false), "n".to_string());
    let steps = e.entry_steps("/home/u");
    assert_eq!(steps.len(), 5);
    assert!(matches!(&steps[0], EntryStep::PivotRoot(p) if p == "/tmp/boxxy-containers/n"));
    assert!(matches!(steps[2], EntryStep::RemountRootReadOnly));
}

#[test]
fn basic_redirect_plans_a_directory_mount() {
    let mut e = Enclosure::with_name(config(false, false, false), "bold-snow-1234".to_string());
    let inside = e.container_target("/tmp/sandbox-test/a");
    assert_eq!(inside, "/tmp/boxxy-containers/bold-snow-1234/tmp/sandbox-test/a");
    let action = e.note_endpoint(inside.clone(), RuleMode::Directory, false);
    assert!(matches!(action, EndpointAction::CreateDirectory(p) if p == inside));
}

#[test]
fn file_mode_redirect_plans_a_file_mount() {
    let mut e = Enclosure::with_name(config(false, false, false), "n".to_string());
    let inside = e.container_target("/tmp/sandbox-test/x.cfg");
    let action = e.note_endpoint(inside.clone(), RuleMode::File, false);
    assert!(matches!(action, EndpointAction::CreateFile(p) if p == "/tmp/boxxy-containers/n/tmp/sandbox-test/x.cfg"));
    assert_eq!(e.created_files, vec![inside]);
}
