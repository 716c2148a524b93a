use std::sync::Arc;
use zed_core::collections::VecSet;
use zed_core::task::expansion::{
    has_variable_left, is_readable, substitute_variables_in_map, substitute_variables_in_str,
    truncate_and_remove_front, truncate_variables, try_substitute_variables_in_map,
    try_substitute_variables_in_str, values_of, TaskContext, TaskVariable, VariableName,
    UnreadableTemplate, MAX_DISPLAY_VARIABLE_LENGTH,
};
use zed_core::task::modal::{
    sort_lsp_tasks, tags_line, tooltip, truncate_and_trailoff, FooterButton, LspTask, LspTasks,
    TaskCandidate, TaskIcon, TaskMatch, TaskOverrides, TaskSourceKind, TasksModalDelegate,
};
use zed_core::task::template::{
    in_one_line, make_task_id, to_hex_hash, HideStrategy, ResolvedTask, RevealStrategy,
    RevealTarget, Shell, TaskTemplate,
};
use zed_core::text_map::TextMap;

fn map(pairs: &[(&str, &str)]) -> TextMap {
    let mut map = TextMap::new();
    for (key, value) in pairs {
        map.insert(key.to_string(), value.to_string());
    }
    map
}

fn variable(id: u64, name: &str, value: &str) -> TaskVariable {
    TaskVariable {
        name: VariableName {
            id,
            text: name.to_string(),
        },
        value: value.to_string(),
    }
}

fn context() -> TaskContext {
    TaskContext {
        cwd: Some("/work".to_string()),
        task_variables: vec![
            variable(1, "ZED_FILE", "/work/main.rs"),
            variable(2, "ZED_ROW", "12"),
            variable(3, "ZED_CUSTOM_long", "a value that is rather long"),
        ],
        project_env: map(&[("PATH", "/bin"), ("WHERE", "$ZED_FILE")]),
    }
}

fn template(label: &str, command: &str) -> TaskTemplate {
    TaskTemplate {
        label: label.to_string(),
        command: command.to_string(),
        args: vec![],
        env: TextMap::new(),
        cwd: None,
        use_new_terminal: false,
        allow_concurrent_runs: false,
        reveal: RevealStrategy::Always,
        reveal_target: RevealTarget::Dock,
        hide: HideStrategy::Never,
        tags: vec![],
        shell: Shell::System,
        show_summary: true,
        show_command: true,
    }
}

fn resolved(label: &str, command: &str) -> ResolvedTask {
    template(label, command)
        .resolve_task("base", &context(), Some("{}"), Some("{}"))
        .unwrap()
}

#[test]
fn variables_are_expanded() {
    let cx = context();
    let expand = |text: &str| substitute_variables_in_str(text, &cx);
    assert_eq!(expand("cat $ZED_FILE:$ZED_ROW"), Some("cat /work/main.rs:12".to_string()));
    assert_eq!(expand("${ZED_ROW}nd"), Some("12nd".to_string()));
    // Other variables are left to the shell.
    assert_eq!(expand("$PATH and ${HOME}"), Some("$PATH and ${HOME}".to_string()));
    assert_eq!(expand("${HOME:/root}"), Some("${HOME:/root}".to_string()));
    // A default is kept behind the value.
    assert_eq!(expand("${ZED_ROW:5}"), Some("12:5".to_string()));
    // A variable of this kind that is not known is an error.
    assert_eq!(expand("$ZED_UNKNOWN"), None);
    assert_eq!(expand("plain"), Some("plain".to_string()));
}

#[test]
fn maps_are_expanded_by_key_and_value() {
    let cx = context();
    let expanded = substitute_variables_in_map(&map(&[("row_$ZED_ROW", "$ZED_FILE")]), &cx).unwrap();
    assert_eq!(expanded.len(), 1);
    assert_eq!(expanded.get("row_12"), Some(&"/work/main.rs".to_string()));
    assert!(substitute_variables_in_map(&map(&[("a", "$ZED_NONE")]), &cx).is_none());
}

#[test]
fn long_values_are_shortened() {
    assert_eq!(truncate_and_remove_front("short", MAX_DISPLAY_VARIABLE_LENGTH), "short");
    assert_eq!(
        truncate_and_remove_front("a value that is rather long", 15),
        "\u{2026} is rather long"
    );
    let values = values_of(&context().task_variables);
    let short = truncate_variables(&values);
    assert_eq!(short.get("ZED_ROW"), Some(&"12".to_string()));
    assert_eq!(short.get("ZED_CUSTOM_long"), Some(&"\u{2026} is rather long".to_string()));
}

#[test]
fn tasks_are_resolved() {
    let mut task = template("run $ZED_FILE", "cargo");
    task.args = vec!["run".to_string(), "$ZED_ROW".to_string()];
    task.env = map(&[("WHERE", "row $ZED_ROW"), ("OWN", "x")]);
    let done = task
        .resolve_task("base", &context(), Some("task"), Some("variables"))
        .unwrap();
    assert_eq!(done.resolved_label, "run /work/main.rs");
    assert_eq!(done.resolved.full_label, "run /work/main.rs");
    assert_eq!(done.resolved.label, "run /work/main.rs");
    assert_eq!(done.resolved.command, "cargo");
    assert_eq!(done.resolved.command_label, "cargo run 12");
    // The arguments are left to the shell.
    assert_eq!(done.resolved.args, vec!["run", "$ZED_ROW"]);
    assert_eq!(done.resolved.cwd, Some("/work".to_string()));
    assert_eq!(done.resolved.env.get("WHERE"), Some(&"row 12".to_string()));
    assert_eq!(done.resolved.env.get("PATH"), Some(&"/bin".to_string()));
    assert_eq!(done.resolved.env.get("OWN"), Some(&"x".to_string()));
    assert_eq!(done.resolved.env.get("ZED_FILE"), Some(&"/work/main.rs".to_string()));
    assert!(done.resolved.show_rerun);
    let mut used = done.substituted_variables.to_vec();
    used.sort();
    assert_eq!(used, vec![1, 2]);
    assert_eq!(
        done.id,
        make_task_id("base", &to_hex_hash("task"), &to_hex_hash("variables"))
    );
    assert_eq!(done.id, done.resolved.id);
}

#[test]
fn long_labels_are_shown_short() {
    let done = resolved("one $ZED_CUSTOM_long two $ZED_CUSTOM_long three $ZED_CUSTOM_long", "c");
    assert!(done.resolved.full_label.len() > 64);
    assert_eq!(
        done.resolved.label,
        "one \u{2026} is rather long two \u{2026} is rather long three \u{2026} is rather long"
    );
    assert_eq!(in_one_line("a\nb\n\nc"), "a\\nb\\n\\nc");
}

#[test]
fn tasks_without_a_name_or_command_are_refused() {
    let cx = context();
    let refused = |task: TaskTemplate| {
        task.resolve_task("base", &cx, Some("a"), Some("b")).is_none()
    };
    assert!(refused(template("  ", "c")));
    assert!(refused(template("l", "\t")));
    assert!(refused(template("l $ZED_NOPE", "c")));
    assert!(template("l", "c").resolve_task("base", &cx, None, Some("b")).is_none());
    let mut task = template("l", "c");
    task.cwd = Some("$ZED_FILE/..".to_string());
    let done = task.resolve_task("base", &cx, Some("a"), Some("b")).unwrap();
    assert_eq!(done.resolved.cwd, Some("/work/main.rs/..".to_string()));
}

#[test]
fn hashes_are_written_in_hexadecimal() {
    assert_eq!(
        to_hex_hash(""),
        "e3b0c44298fc1c149afbf4c8996fb92427ae41e4649b934ca495991b7852b855"
    );
    assert_eq!(
        to_hex_hash("abc"),
        "ba7816bf8f01cfea414140de5dae2223b00361a396177a9cb410ff61f20015ad"
    );
    assert_eq!(make_task_id("x", "y", "z"), "x_y_z");
}

fn candidate(kind: TaskSourceKind, label: &str) -> TaskCandidate {
    TaskCandidate {
        kind: Arc::new(kind),
        task: Arc::new(resolved(label, label)),
    }
}

fn hit(candidate_id: usize) -> TaskMatch {
    TaskMatch {
        candidate_id,
        text: String::new(),
        positions: vec![],
    }
}

fn language() -> TaskSourceKind {
    TaskSourceKind::Language {
        name: "Rust".to_string(),
    }
}

#[test]
fn used_tasks_come_first() {
    let mut delegate = TasksModalDelegate::new(None);
    assert_eq!(delegate.placeholder_text(), "Find a task, or run a command");
    let used = vec![candidate(TaskSourceKind::UserInput, "used one"), candidate(language(), "used two")];
    let current = vec![candidate(TaskSourceKind::Worktree, "tree"), candidate(language(), "lang")];
    delegate.set_candidates(used, &vec![], &current, true);
    assert_eq!(
        delegate.string_match_candidates(),
        vec!["used one", "used two", "tree", "lang"]
    );
    assert_eq!(delegate.last_used_candidate_index, Some(1));
    delegate.update_matches(vec![hit(3), hit(1), hit(2), hit(0)], "q".to_string());
    let order: Vec<usize> = delegate.hits.iter().map(|hit| hit.candidate_id).collect();
    assert_eq!(order, vec![1, 0, 3, 2]);
    assert_eq!(delegate.divider_index, Some(1));
    assert_eq!(delegate.separators_after_indices(), vec![1]);
    assert!(delegate.is_used(1));
    assert!(!delegate.is_used(2));
    let (picked, target) = delegate.confirm().unwrap();
    assert_eq!(picked.task.resolved.label, "used two");
    assert_eq!(target, None);
    assert_eq!(delegate.confirm_completion(), Some("used two".to_string()));
    assert_eq!(delegate.footer_button(false, false), FooterButton::Rerun);
    assert_eq!(delegate.footer_button(true, false), FooterButton::SpawnOneshot);
    assert_eq!(delegate.footer_button(false, true).label(), "Rerun Without History");
    delegate.selected_index = 3;
    assert_eq!(delegate.footer_button(false, false), FooterButton::Spawn);
    delegate.update_matches(vec![hit(2)], String::new());
    assert_eq!(delegate.selected_index, 0);
    assert_eq!(delegate.divider_index, None);
    let gone = delegate.delete_previously_used(0).unwrap();
    assert_eq!(gone.task.resolved.label, "used one");
    assert_eq!(delegate.last_used_candidate_index, Some(0));
    assert!(delegate.delete_previously_used(17).is_none());
}

#[test]
fn tasks_of_language_servers_take_precedence() {
    let lsp = |label: &str, has_location: bool| LspTask {
        has_location,
        task: Arc::new(resolved(label, label)),
    };
    let tasks = vec![LspTasks {
        kind: Arc::new(TaskSourceKind::Lsp {
            language_name: "Rust".to_string(),
        }),
        tasks: vec![lsp("b", false), lsp("a", true)],
    }];
    let current = vec![candidate(language(), "lang"), candidate(TaskSourceKind::AbsPath, "global")];
    let mut delegate = TasksModalDelegate::new(Some(TaskOverrides {
        reveal_target: Some(RevealTarget::Center),
    }));
    delegate.set_candidates(vec![], &tasks, &current, true);
    assert_eq!(delegate.string_match_candidates(), vec!["a", "b", "global"]);
    delegate.set_candidates(vec![], &tasks, &current, false);
    assert_eq!(delegate.string_match_candidates(), vec!["a", "b", "lang", "global"]);
    assert_eq!(delegate.last_used_candidate_index, None);
    assert_eq!(delegate.placeholder_text(), "Find a task, or run a command in the central pane");
    let sorted = sort_lsp_tasks(&tasks[0].tasks);
    assert!(sorted[0].has_location);
}

#[test]
fn matches_are_shown_as_rows() {
    let mut delegate = TasksModalDelegate::new(None);
    assert!(delegate.match_row(0).is_none());
    let lsp = TaskSourceKind::Lsp {
        language_name: "Rust".to_string(),
    };
    delegate.candidates = Some(vec![
        candidate(lsp, "row $ZED_ROW"),
        candidate(TaskSourceKind::Worktree, "plain"),
        candidate(TaskSourceKind::UserInput, "typed"),
    ]);
    let found = |candidate_id: usize, text: &str| TaskMatch {
        candidate_id,
        text: text.to_string(),
        positions: vec![0, 2],
    };
    delegate.hits = vec![found(0, "row 12"), found(1, "plain"), found(2, "typed"), found(7, "gone")];
    delegate.divider_index = Some(0);
    let row = delegate.match_row(0).unwrap();
    assert!(matches!(&row.icon, TaskIcon::FileType(name) if name == "rust"));
    assert!(row.has_indicator && row.used);
    assert_eq!((row.label.as_str(), row.char_count), ("row 12", 6));
    assert_eq!(row.highlights, vec![0, 2]);
    assert_eq!(row.tags, "");
    assert_eq!(row.tooltip, Some("row 12".to_string()));
    assert_eq!(row.delete, Some(0));
    let row = delegate.match_row(1).unwrap();
    assert!(matches!(row.icon, TaskIcon::FileTree));
    assert!(!row.has_indicator && !row.used);
    assert_eq!((row.tooltip, row.delete), (None, None));
    assert_eq!(delegate.match_row(2).unwrap().delete, Some(2));
    assert!(delegate.match_row(3).is_none());
}

#[test]
fn typed_commands_become_tasks() {
    let mut delegate = TasksModalDelegate::new(Some(TaskOverrides {
        reveal_target: Some(RevealTarget::Center),
    }));
    assert!(delegate.oneshot_template().is_none());
    delegate.update_matches(vec![], "echo $ZED_ROW".to_string());
    let template = delegate.oneshot_template().unwrap();
    assert_eq!(template.command, "echo $ZED_ROW");
    assert_eq!(template.reveal_target, RevealTarget::Center);
    let task = delegate
        .spawn_oneshot("oneshot", &context(), Some("t"), Some("v"))
        .unwrap();
    assert_eq!(task.resolved.command, "echo 12");
    assert_eq!(task.resolved_label, "echo 12");
    // The environment of the project asks for the file.
    let mut used = task.substituted_variables.to_vec();
    used.sort();
    assert_eq!(used, vec![1, 2]);
    assert_eq!(task.resolved.reveal_target, RevealTarget::Center);
    let same = delegate
        .try_spawn_oneshot("oneshot", &context(), Some("t"), Some("v"))
        .unwrap()
        .unwrap();
    assert_eq!(same.id, task.id);
    delegate.update_matches(vec![], "echo $\u{e9}".to_string());
    assert!(delegate.try_spawn_oneshot("oneshot", &context(), Some("t"), Some("v")).is_err());
}

#[test]
fn tasks_are_described() {
    assert_eq!(truncate_and_trailoff("abcdef", 3), "abc\u{2026}");
    assert_eq!(truncate_and_trailoff("abc", 3), "abc");
    assert_eq!(tags_line(&vec!["one".to_string(), "two".to_string()]), "#one #two");
    let plain = resolved("echo", "echo");
    assert_eq!(tooltip(&plain), None);
    let task = resolved("row $ZED_ROW", "echo");
    assert_eq!(tooltip(&task), Some("row 12\necho".to_string()));
    match language().icon() {
        TaskIcon::FileType(name) => assert_eq!(name, "rust"),
        other => panic!("{:?}", other),
    }
    assert!(!language().has_indicator());
    assert!(TaskSourceKind::UserInput.can_be_deleted(false));
    assert!(!language().can_be_deleted(false));
    assert!(language().can_be_deleted(true));
}

#[test]
fn copies_of_templates_are_equal() {
    let mut task = template("a", "b");
    task.tags = vec!["t".to_string()];
    task.shell = Shell::WithArguments {
        program: "sh".to_string(),
        args: vec!["-c".to_string()],
    };
    assert_eq!(format!("{:?}", task.copy()), format!("{:?}", task));
    let mut seen: VecSet<u64> = VecSet::new();
    let parts = task.substitute(&context(), &mut seen).unwrap();
    assert_eq!(parts.full_label, "a");
    assert_eq!(RevealTarget::default(), RevealTarget::Dock);
    assert_eq!(RevealStrategy::default(), RevealStrategy::Always);
    assert_eq!(HideStrategy::default(), HideStrategy::Never);
}

#[test]
fn templates_that_cannot_be_read() {
    let cx = context();
    for text in ["$\u{e9}", "a ${x $\u{e9}", "$ZED_ROW$\u{430}", "$$$\u{e9}"] {
        assert!(!is_readable(text), "{}", text);
        assert_eq!(try_substitute_variables_in_str(text, &cx), Err(UnreadableTemplate));
    }
    assert!(try_substitute_variables_in_map(&map(&[("a", "$\u{e9}")]), &cx).is_err());
    let done = try_substitute_variables_in_map(&map(&[("a", "$ZED_ROW")]), &cx).unwrap().unwrap();
    assert_eq!(done.get("a"), Some(&"12".to_string()));
    for (text, expanded) in [
        ("$$\u{e9}", "$\u{e9}"),
        ("${a$\u{e9}}", "${a$\u{e9}}"),
        ("$\u{2192} $ZED_ROW", "$\u{2192} 12"),
        ("\u{e9}$ZED_ROW\u{2192}", "\u{e9}12\u{2192}"),
        ("$", "$"),
        ("${ZED_ROW", "${ZED_ROW"),
    ] {
        assert!(is_readable(text), "{}", text);
        assert_eq!(
            try_substitute_variables_in_str(text, &cx),
            Ok(Some(expanded.to_string()))
        );
    }
    let task = template("run $\u{e9}", "cargo");
    assert!(matches!(
        task.try_resolve_task("base", &cx, Some("a"), Some("b")),
        Err(UnreadableTemplate)
    ));
    // A blank command is told before anything is read.
    let task = template("run $\u{e9}", " ");
    assert!(matches!(task.try_resolve_task("base", &cx, Some("a"), Some("b")), Ok(None)));
    let done = template("run $ZED_ROW", "cargo")
        .try_resolve_task("base", &cx, Some("a"), Some("b"))
        .unwrap()
        .unwrap();
    assert_eq!(done.resolved_label, "run 12");
}

#[test]
fn tasks_with_variables_left_are_not_resolved() {
    let cx = context();
    let is_none =
        |task: &TaskTemplate| task.resolve_task("base", &cx, Some("a"), Some("b")).is_none();
    assert!(has_variable_left("see ZED_FILE"));
    assert!(!has_variable_left("see ZED-FILE"));
    assert!(is_none(&template("show ${ZED_ROW", "cargo")));
    assert!(is_none(&template("show", "echo $$ZED_ROW")));
    let mut task = template("show", "echo");
    assert!(!is_none(&task));
    task.args = vec!["ZED_ROW".to_string()];
    assert!(is_none(&task));
    task.args = vec![];
    task.env = map(&[("a", "$$ZED_ROW")]);
    assert!(is_none(&task));
    task.env = map(&[("a", "$ZED_ROW")]);
    assert!(!is_none(&task));
    task.cwd = Some("/$$ZED_ROW".to_string());
    assert!(is_none(&task));
    // A default stands in for a variable that is not there.
    let task = template("show ${ZED_NONE:-it}", "cargo");
    let done = task.resolve_task("base", &cx, Some("a"), Some("b")).unwrap();
    assert_eq!(done.resolved_label, "show it");
}
