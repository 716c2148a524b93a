use zed_core::path::{push_path, AnyPath, Component, Os};
use zed_core::task::template::Shell;
use zed_core::terminals::{
    activate_command_line, activate_script_path, active_project_directory, find_venv,
    first_project_directory, python_activate_command, python_venv_directory, settings_location,
    terminal_env, venv_candidates, ActivateScript, TerminalKind, TerminalSettings, Terminals,
    VenvSettings, Worktree,
};
use zed_core::text_map::TextMap;

fn map(pairs: &[(&str, &str)]) -> TextMap {
    let mut map = TextMap::new();
    for (key, value) in pairs {
        map.insert(key.to_string(), value.to_string());
    }
    map
}

fn worktree(id: u64, path: &str, root_is_dir: Option<bool>) -> Worktree {
    Worktree {
        id,
        abs_path: path.to_string(),
        root_is_dir,
        root_dir: if root_is_dir == Some(true) {
            Some(path.to_string())
        } else {
            None
        },
    }
}

#[test]
fn project_directories() {
    let file = worktree(1, "/a/file.txt", Some(false));
    let dir = worktree(2, "/b", Some(true));
    assert_eq!(active_project_directory(Some(&dir), &vec![]), Some("/b".to_string()));
    let all = vec![file, dir];
    assert_eq!(active_project_directory(None, &all), Some("/b".to_string()));
    assert_eq!(first_project_directory(&all), None);
    assert_eq!(first_project_directory(&vec![worktree(3, "/c", Some(true))]), Some("/c".to_string()));
    assert_eq!(first_project_directory(&vec![worktree(3, "/c", None)]), None);
    assert_eq!(first_project_directory(&vec![]), None);
    assert_eq!(
        settings_location(&Some("/b/x".to_string()), Some(2)),
        Some((2, "/b/x".to_string()))
    );
    assert_eq!(settings_location(&None, Some(2)), None);
    assert_eq!(settings_location(&Some("/z".to_string()), None), None);
}

#[test]
fn settings_go_over_the_environment() {
    let env = terminal_env(Some(map(&[("A", "1"), ("B", "2")])), &map(&[("B", "3"), ("C", "4")]));
    assert_eq!(env.get("A"), Some(&"1".to_string()));
    assert_eq!(env.get("B"), Some(&"3".to_string()));
    assert_eq!(env.get("C"), Some(&"4".to_string()));
    assert_eq!(terminal_env(None, &map(&[])).len(), 0);
}

fn venv(activate_script: ActivateScript) -> VenvSettings {
    VenvSettings::On {
        activate_script,
        directories: vec![".venv".to_string(), "venv".to_string()],
    }
}

#[test]
fn scripts_are_found_and_quoted() {
    assert_eq!(activate_script_path("/p/.venv", ActivateScript::Default, Os::Other), "/p/.venv/bin/activate");
    assert_eq!(activate_script_path("/p/.venv", ActivateScript::Fish, Os::Other), "/p/.venv/bin/activate.fish");
    assert_eq!(
        python_activate_command("/p/.venv", &venv(ActivateScript::Default), Os::Other, true),
        Some("source /p/.venv/bin/activate ; clear\n".to_string())
    );
    // A path with a space is quoted.
    assert_eq!(
        python_activate_command("/my p/.venv", &venv(ActivateScript::Csh), Os::Other, true),
        Some("source '/my p/.venv/bin/activate.csh' ; clear\n".to_string())
    );
    assert_eq!(
        python_activate_command("/p/.venv", &venv(ActivateScript::Nushell), Os::Other, true),
        Some("overlay use /p/.venv/bin/activate.nu ; clear\n".to_string())
    );
    assert_eq!(python_activate_command("/p", &venv(ActivateScript::Default), Os::Other, false), None);
    assert_eq!(python_activate_command("/p", &VenvSettings::Off, Os::Other, true), None);
    // A path that cannot be quoted is left out.
    assert_eq!(python_activate_command("/p\0q", &venv(ActivateScript::Default), Os::Other, true), None);
    assert_eq!(activate_command_line(ActivateScript::PowerShell, "x", Os::Windows), ". x ; clear\r");
    assert_eq!(activate_command_line(ActivateScript::Default, "x", Os::Windows), ". x ; clear\r");
}

#[test]
fn environments_are_looked_for_in_order() {
    let directories = vec![".venv".to_string(), "venv".to_string()];
    assert_eq!(
        venv_candidates("/p", &directories, Os::Other),
        vec![
            ("/p/.venv".to_string(), "/p/.venv/bin".to_string()),
            ("/p/venv".to_string(), "/p/venv/bin".to_string()),
        ]
    );
    assert_eq!(find_venv("/p", &directories, &vec![false, true], Os::Other), Some("/p/venv".to_string()));
    assert_eq!(find_venv("/p", &directories, &vec![false, false], Os::Other), None);
    let python = AnyPath {
        absolute: true,
        components: ["opt", "py", "bin", "python"]
            .iter()
            .map(|name| Component::Normal(name.to_string()))
            .collect(),
    };
    let settings = venv(ActivateScript::Default);
    let none = vec![false, false];
    let some = vec![true, false];
    assert_eq!(
        python_venv_directory("/p", Some(&python), &settings, &none, &none, Os::Other),
        Some("/opt/py".to_string())
    );
    assert_eq!(
        python_venv_directory("/p", None, &settings, &none, &some, Os::Other),
        Some("/p/.venv".to_string())
    );
    assert_eq!(
        python_venv_directory("/p", None, &settings, &vec![false, true], &some, Os::Other),
        Some("/p/venv".to_string())
    );
    assert_eq!(python_venv_directory("/p", None, &VenvSettings::Off, &none, &some, Os::Other), None);
}

#[test]
fn terminals_are_opened_and_released() {
    let settings = TerminalSettings {
        shell: Shell::Program("zsh".to_string()),
        env: map(&[("X", "1")]),
        detect_venv: venv(ActivateScript::Default),
    };
    let request = Terminals::create_terminal_with_venv(
        TerminalKind::Shell(Some("/p".to_string())),
        Some("/p/.venv".to_string()),
        &settings,
        None,
        Os::Other,
        true,
    );
    assert_eq!(request.working_directory, Some("/p".to_string()));
    assert_eq!(request.python_venv_directory, Some("/p/.venv".to_string()));
    assert_eq!(
        request.activate_command,
        Some("source /p/.venv/bin/activate ; clear\n".to_string())
    );
    assert!(matches!(request.shell, Shell::Program(ref name) if name == "zsh"));
    assert_eq!(request.env.get("X"), Some(&"1".to_string()));
    let mut terminals = Terminals {
        local_handles: vec![],
    };
    terminals.opened(4);
    terminals.opened(5);
    terminals.opened(6);
    assert!(terminals.released(5));
    assert!(!terminals.released(5));
    assert_eq!(terminals.local_terminal_handles(), &vec![4, 6]);
}

#[test]
fn environments_on_windows() {
    let directories = vec![".venv".to_string(), "D:\\venv".to_string(), "\\venv".to_string()];
    assert_eq!(
        venv_candidates("C:\\p", &directories, Os::Windows),
        vec![
            ("C:\\p\\.venv".to_string(), "C:\\p\\.venv\\Scripts".to_string()),
            ("D:\\venv".to_string(), "D:\\venv\\Scripts".to_string()),
            ("C:\\venv".to_string(), "C:\\venv\\Scripts".to_string()),
        ]
    );
    assert_eq!(
        find_venv("C:\\p", &directories, &vec![true, true, true], Os::Windows),
        Some("C:\\p\\.venv".to_string())
    );
    assert_eq!(push_path("C:", "p", Os::Windows), "C:p");
    assert_eq!(push_path("C:/", "p", Os::Windows), "C:/p");
    assert_eq!(push_path("a", "\\\\host\\p", Os::Windows), "\\\\host\\p");
    assert_eq!(push_path("a", "C:p", Os::Other), "a/C:p");
}
