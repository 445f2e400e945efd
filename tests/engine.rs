use zapp::config::{asset, config_root, resolve_asset, task_file, Params};
use zapp::filesystem::{
    expand_path, join_path, octal_value, parse_mode_text, parse_permissions, InvalidPermissions,
};
use zapp::loader::{listed_names, parse_leaf, ConfigError, ConfigValue};
use zapp::plan::Action;
use zapp::task::{
    exit_succeeded, CopyTask, Report, ShellTask, Status, SymlinkTask, Task, TaskType, TemplateTask,
};

fn text(s: &str) -> ConfigValue {
    ConfigValue::Text(s.to_string())
}

fn entry(k: &str, v: ConfigValue) -> ConfigValue {
    ConfigValue::Mapping(vec![(text(k), v)])
}

fn body(pairs: &[(&str, &str)]) -> ConfigValue {
    ConfigValue::Mapping(pairs.iter().map(|(k, v)| (text(k), text(v))).collect())
}

fn shell(name: &str, cmd: &str) -> Task {
    Task::new(name, TaskType::Shell(ShellTask(cmd.to_string())))
}

fn params() -> Params {
    Params::new(tera::Context::new())
}

fn run(task: &Task, outcomes: &[bool]) -> (Status, Vec<Report>, usize) {
    let mut p = params();
    let mut next = 0usize;
    let mut log = Vec::new();
    let st = task.run(&mut p, &outcomes.to_vec(), &mut next, &mut log);
    assert_eq!(p.depth, 0);
    (st, log, next)
}

fn lines(log: &[Report]) -> Vec<String> {
    log.iter().map(|r| r.line()).collect()
}

#[test]
fn status_labels() {
    assert_eq!(Status::Success.label(), "SUCCESS");
    assert_eq!(Status::Failure.label(), "FAILURE");
    assert_eq!(Status::Skipped.label(), "SKIPPED");
}

#[test]
fn end_to_end_setup_group() {
    let setup = ConfigValue::Sequence(vec![
        entry("copy", body(&[("src", "a.txt"), ("dst", "~/a.txt")])),
        entry("shell", text("exit 1")),
        entry("symlink", body(&[("src", "b"), ("dst", "~/b")])),
    ]);
    let config = ConfigValue::Sequence(vec![entry("setup", setup)]);
    let root = Task::parse_from_config("main", &config, &Vec::new()).unwrap();
    let (st, log, next) = run(&root, &[true, false, true]);
    assert_eq!(next, 3);
    assert_eq!(st, Status::Failure);
    assert_eq!(
        lines(&log),
        vec![
            "    copy: SUCCESS",
            "    shell: FAILURE",
            "    symlink: SUCCESS",
            "  setup: FAILURE",
            "main: FAILURE",
        ]
    );
}

#[test]
fn empty_group_succeeds() {
    let g = Task::group("g", Vec::new());
    let (st, log, next) = run(&g, &[]);
    assert_eq!(st, Status::Success);
    assert_eq!(next, 0);
    assert_eq!(lines(&log), vec!["g: SUCCESS"]);
}

#[test]
fn group_of_skipped_succeeds() {
    let g = Task::group("g", vec![Task::new("u", TaskType::Unknown)]);
    let (st, log, _) = run(&g, &[]);
    assert_eq!(st, Status::Success);
    assert_eq!(lines(&log), vec!["  u: SKIPPED", "g: SUCCESS"]);
}

#[test]
fn failure_propagates_through_nested_groups() {
    let inner = Task::group("inner", vec![shell("a", "true"), shell("b", "false")]);
    let outer = Task::group("outer", vec![inner, shell("c", "true")]);
    let (st, log, next) = run(&outer, &[true, false, true]);
    assert_eq!(st, Status::Failure);
    assert_eq!(next, 3);
    assert_eq!(log[2].status, Status::Failure);
    assert_eq!(log[2].depth, 1);
    assert_eq!(log[3].status, Status::Success);
    assert_eq!(lines(&log)[1], "    b: FAILURE");
}

#[test]
fn siblings_run_after_failure() {
    let g = Task::group("g", vec![shell("a", "exit 1"), shell("b", "true")]);
    let (st, log, next) = run(&g, &[false, true]);
    assert_eq!(next, 2);
    assert_eq!(st, Status::Failure);
    assert_eq!(log[1].status, Status::Success);
}

#[test]
fn privileged_task_is_skipped() {
    let mut t = shell("s", "rm -rf /tmp/x");
    t.as_superuser = true;
    let (st, log, next) = run(&t, &[]);
    assert_eq!(st, Status::Skipped);
    assert_eq!(next, 0);
    assert_eq!(lines(&log), vec!["s: SKIPPED"]);
    let mut out = Vec::new();
    t.plan("/cfg", &mut out);
    assert!(out.is_empty());
}

#[test]
fn unknown_task_is_skipped() {
    let t = Task::new("unknown", TaskType::Unknown);
    let (st, _, next) = run(&t, &[]);
    assert_eq!(st, Status::Skipped);
    assert_eq!(next, 0);
}

#[test]
fn report_indent_is_two_spaces_per_level() {
    let r = Report { depth: 3, name: "x".to_string(), status: Status::Success };
    assert_eq!(r.line(), "      x: SUCCESS");
    let r = Report { depth: 0, name: "y".to_string(), status: Status::Skipped };
    assert_eq!(r.line(), "y: SKIPPED");
}

#[test]
fn shell_exit_codes() {
    assert!(exit_succeeded(Some(0)));
    assert!(!exit_succeeded(Some(1)));
    assert!(!exit_succeeded(Some(-1)));
    assert!(!exit_succeeded(None));
}

#[test]
fn octal_modes() {
    assert_eq!(octal_value(644), Some(0o644));
    assert_eq!(octal_value(755), Some(0o755));
    assert_eq!(octal_value(0), Some(0));
    assert_eq!(octal_value(8), None);
    assert_eq!(octal_value(649), None);
    assert_eq!(parse_permissions(None), Ok(None));
    assert_eq!(parse_permissions(Some(600)), Ok(Some(0o600)));
    assert_eq!(parse_permissions(Some(19)), Err(InvalidPermissions));
}

#[test]
fn path_joining() {
    assert_eq!(join_path("/a", "b"), "/a/b");
    assert_eq!(join_path("/a/", "b"), "/a/b");
    assert_eq!(join_path("", "b"), "b");
    assert_eq!(join_path("/a", "/b"), "/b");
    assert_eq!(config_root("/home/u/.config"), "/home/u/.config/zapp");
    assert_eq!(resolve_asset("/cfg", "files", "a.txt"), "/cfg/files/a.txt");
    assert_eq!(resolve_asset("/cfg", "files", "/abs/a"), "/abs/a");
}

#[test]
fn asset_paths() {
    assert_eq!(asset("/cfg", "tasks", "base.yaml"), "/cfg/tasks/base.yaml");
    assert_eq!(asset("/cfg", "files", "/etc/hosts"), "/etc/hosts");
}

#[test]
fn tilde_expansion() {
    assert_eq!(expand_path("/plain/path"), "/plain/path");
    assert_eq!(expand_path("~user/x"), "~user/x");
    let e = expand_path("~/x");
    assert!(e.ends_with("/x"));
}

#[test]
fn plan_resolves_operations() {
    let g = Task::group(
        "g",
        vec![
            Task::new(
                "copy",
                TaskType::Copy(CopyTask { src: "a.txt".into(), dst: "/t/a.txt".into(), mode: Some(0o644) }),
            ),
            Task::new("u", TaskType::Unknown),
            Task::new("link", TaskType::Symlink(SymlinkTask { src: "b".into(), dst: "/t/b".into() })),
            Task::new(
                "tpl",
                TaskType::Template(TemplateTask { src: "missing.tpl".into(), dst: "/t/c".into(), mode: None }),
            ),
            shell("sh", "echo hi"),
        ],
    );
    let mut out = Vec::new();
    g.plan("/cfg", &mut out);
    assert_eq!(out.len(), 4);
    match &out[0] {
        Action::Copy { src, dst, mode } => {
            assert_eq!(src, "/cfg/files/a.txt");
            assert_eq!(dst, "/t/a.txt");
            assert_eq!(*mode, Some(0o644));
        }
        _ => panic!("expected a copy"),
    }
    match &out[1] {
        Action::Symlink { src, dst } => {
            assert_eq!(src, "/cfg/files/b");
            assert_eq!(dst, "/t/b");
        }
        _ => panic!("expected a symlink"),
    }
    match &out[2] {
        Action::Render { template, dst, mode } => {
            assert_eq!(template, "missing.tpl");
            assert_eq!(dst, "/t/c");
            assert_eq!(*mode, None);
        }
        _ => panic!("expected a render"),
    }
    match &out[3] {
        Action::Shell(c) => assert_eq!(c, "echo hi"),
        _ => panic!("expected a shell command"),
    }
}

#[test]
fn template_renders_into_write() {
    let t = Task::new(
        "tpl",
        TaskType::Template(TemplateTask { src: "greet".into(), dst: "/t/g".into(), mode: Some(0o600) }),
    );
    let mut out = Vec::new();
    t.plan("/cfg", &mut out);
    let a = out.pop().unwrap();
    match a.rendered(Some("hello world".to_string())) {
        Action::Write { dst, text, mode } => {
            assert_eq!(dst, "/t/g");
            assert_eq!(text, "hello world");
            assert_eq!(mode, Some(0o600));
        }
        _ => panic!("expected a write"),
    }
}

#[test]
fn failed_render_writes_nothing() {
    let a = Action::Render { template: "x".into(), dst: "/t/x".into(), mode: None };
    assert!(matches!(a.rendered(None), Action::Fail));
    let s = Action::Shell("ls".into());
    match s.rendered(None) {
        Action::Shell(c) => assert_eq!(c, "ls"),
        _ => panic!("expected the shell action unchanged"),
    }
}

#[test]
fn text_modes() {
    assert_eq!(parse_mode_text("644"), Some(0o644));
    assert_eq!(parse_mode_text("0755"), Some(0o755));
    assert_eq!(parse_mode_text("648"), None);
    assert_eq!(parse_mode_text(""), None);
    assert_eq!(parse_mode_text("rw"), None);
    assert_eq!(parse_mode_text("77777777777"), None);
    assert_eq!(parse_mode_text("37777777777"), Some(u32::MAX));
    let c = parse_leaf("template", &ConfigValue::Mapping(vec![
        (text("src"), text("t")),
        (text("dst"), text("d")),
        (text("mode"), text("640")),
    ]))
    .unwrap();
    match c {
        TaskType::Template(t) => assert_eq!(t.mode, Some(0o640)),
        _ => panic!("expected a template"),
    }
    let bad = parse_leaf("copy", &ConfigValue::Mapping(vec![
        (text("src"), text("a")),
        (text("dst"), text("b")),
        (text("mode"), text("9")),
    ]));
    assert!(matches!(bad, Err(ConfigError::InvalidPermissions)));
}

#[test]
fn leaf_parsing() {
    let c = parse_leaf("copy", &ConfigValue::Mapping(vec![
        (text("src"), text("a")),
        (text("dst"), text("b")),
        (text("mode"), ConfigValue::Integer(755)),
    ]))
    .unwrap();
    match c {
        TaskType::Copy(c) => {
            assert_eq!(c.src, "a");
            assert_eq!(c.dst, "b");
            assert_eq!(c.mode, Some(0o755));
        }
        _ => panic!("expected a copy"),
    }
    let bad = parse_leaf("copy", &ConfigValue::Mapping(vec![
        (text("src"), text("a")),
        (text("dst"), text("b")),
        (text("mode"), ConfigValue::Integer(999)),
    ]));
    assert!(matches!(bad, Err(ConfigError::InvalidPermissions)));
    let missing = parse_leaf("symlink", &body(&[("src", "a")]));
    assert!(matches!(missing, Err(ConfigError::InvalidTask(_))));
    assert!(matches!(parse_leaf("shell", &ConfigValue::Integer(3)), Err(ConfigError::InvalidTask(_))));
}

#[test]
fn includes_task_files() {
    let files = vec![(
        "base".to_string(),
        ConfigValue::Sequence(vec![entry("shell", text("true"))]),
    )];
    let config = ConfigValue::Sequence(vec![text("base"), ConfigValue::Integer(5)]);
    let t = Task::parse_from_config("main", &config, &files).unwrap();
    let (st, log, _) = run(&t, &[true]);
    assert_eq!(st, Status::Success);
    assert_eq!(lines(&log), vec!["    shell: SUCCESS", "  base: SUCCESS", "  unknown: SKIPPED", "main: SUCCESS"]);
}

#[test]
fn loader_errors() {
    let missing = ConfigValue::Sequence(vec![text("nope")]);
    assert!(matches!(
        Task::parse_from_config("main", &missing, &Vec::new()),
        Err(ConfigError::MissingTaskFile(_))
    ));
    assert!(matches!(
        Task::parse_from_config("main", &text("x"), &Vec::new()),
        Err(ConfigError::NotASequence)
    ));
    let files = vec![("loop".to_string(), ConfigValue::Sequence(vec![text("loop")]))];
    assert!(matches!(
        Task::parse_from_config("main", &ConfigValue::Sequence(vec![text("loop")]), &files),
        Err(ConfigError::IncludeTooDeep(_))
    ));
}

#[test]
fn named_and_privileged_entries() {
    let e = ConfigValue::Mapping(vec![
        (text("shell"), text("id")),
        (text("name"), text("who am i")),
        (text("su"), ConfigValue::Bool(true)),
    ]);
    let t = Task::parse_from_config("main", &ConfigValue::Sequence(vec![e]), &Vec::new()).unwrap();
    let (st, log, next) = run(&t, &[]);
    assert_eq!(next, 0);
    assert_eq!(st, Status::Success);
    assert_eq!(lines(&log), vec!["  who am i: SKIPPED", "main: SUCCESS"]);
}

#[test]
fn include_names_and_task_file_paths() {
    let config = ConfigValue::Sequence(vec![
        text("base"),
        entry("setup", ConfigValue::Sequence(vec![text("dev"), entry("shell", text("ls"))])),
        entry("copy", body(&[("src", "a"), ("dst", "b")])),
    ]);
    let mut out = Vec::new();
    listed_names(&config, &mut out);
    assert_eq!(out, vec!["base".to_string(), "dev".to_string()]);
    assert_eq!(task_file("/cfg", "base"), "/cfg/tasks/base.yaml");
}
