use zed_core::lsp_ext_command::{
    position_from_proto, position_to_proto, DocsUrls, ExpandMacro, ExpandMacroResponse,
    ExpandedMacro, GoToParentModule, LspExtCancelFlycheck, LspExtClearFlycheck, LspExtExpandMacro,
    LspExtRunFlycheck, LspGoToParentModule, LspOpenDocs, LspSwitchSourceHeader, OpenDocs,
    PositionRequest, Runnables, SwitchSourceHeader, SwitchSourceHeaderResult,
};
use zed_core::project_settings::{
    local_settings_kind_from_proto, local_settings_kind_to_proto, update_kind,
    CargoDiagnosticsSettings, DiagnosticSeverity, DiagnosticsSettings, DirenvSettings,
    GitGutterSetting, GitHunkStyleSetting, GitSettings, InlineBlameSettings,
    InlineDiagnosticsSettings, LocalSettingsKind, LspSeverity, ProjectSettings, SetResult,
    SettingsContent, SettingsObserver, SettingsObserverEvent, UnknownKind, WireSettingsKind,
    WorktreeSettings,
};
use zed_core::rope::position::PointUtf16;

#[test]
fn settings_have_defaults() {
    let diagnostics = DiagnosticsSettings::default();
    assert!(diagnostics.button && diagnostics.include_warnings);
    assert!(diagnostics.lsp_pull_diagnostics.enabled);
    assert_eq!(diagnostics.lsp_pull_diagnostics.debounce_ms, 50);
    assert_eq!(diagnostics.inline, InlineDiagnosticsSettings::default());
    assert_eq!(diagnostics.inline.update_debounce_ms, 150);
    assert_eq!(diagnostics.inline.padding, 4);
    assert!(!diagnostics.fetch_cargo_diagnostics());
    let cargo = DiagnosticsSettings {
        cargo: Some(CargoDiagnosticsSettings {
            fetch_cargo_diagnostics: true,
        }),
        ..DiagnosticsSettings::default()
    };
    assert!(cargo.fetch_cargo_diagnostics());
    assert_eq!(DirenvSettings::default(), DirenvSettings::Direct);
    assert_eq!(GitGutterSetting::default(), GitGutterSetting::TrackedFiles);
    assert_eq!(GitHunkStyleSetting::default(), GitHunkStyleSetting::StagedHollow);
    let settings = ProjectSettings::default();
    assert!(settings.lsp.is_empty());
    assert_eq!(settings.git, GitSettings::default());
    assert_eq!(settings.git.gutter_debounce, None);
    assert!(InlineBlameSettings::default().enabled);
    assert!(!InlineBlameSettings::default().show_commit_summary);
}

#[test]
fn blame_is_shown_as_set() {
    let mut git = GitSettings::default();
    assert!(!git.inline_blame_enabled());
    assert_eq!(git.inline_blame_delay(), None);
    assert!(!git.show_inline_commit_summary());
    git.inline_blame = Some(InlineBlameSettings {
        enabled: true,
        delay_ms: Some(600),
        min_column: None,
        show_commit_summary: true,
    });
    assert!(git.inline_blame_enabled());
    assert_eq!(git.inline_blame_delay(), Some(600));
    assert!(git.show_inline_commit_summary());
    git.inline_blame = Some(InlineBlameSettings {
        enabled: true,
        delay_ms: Some(0),
        min_column: None,
        show_commit_summary: false,
    });
    assert_eq!(git.inline_blame_delay(), None);
}

#[test]
fn severities_of_language_servers() {
    assert_eq!(DiagnosticSeverity::Off.into_lsp(), None);
    assert_eq!(DiagnosticSeverity::Error.into_lsp(), Some(LspSeverity::Error));
    assert_eq!(DiagnosticSeverity::Warning.into_lsp(), Some(LspSeverity::Warning));
    assert_eq!(DiagnosticSeverity::Info.into_lsp(), Some(LspSeverity::Information));
    assert_eq!(DiagnosticSeverity::Hint.into_lsp(), Some(LspSeverity::Hint));
}

#[test]
fn kinds_of_settings_are_sent() {
    for kind in [LocalSettingsKind::Settings, LocalSettingsKind::Editorconfig] {
        assert_eq!(local_settings_kind_from_proto(local_settings_kind_to_proto(kind)), kind);
    }
    assert_eq!(update_kind(None, None), Ok(WireSettingsKind::Settings));
    assert_eq!(
        update_kind(Some(2), Some(WireSettingsKind::Editorconfig)),
        Ok(WireSettingsKind::Editorconfig)
    );
    assert_eq!(update_kind(Some(77), None), Err(UnknownKind(77)));
}

#[test]
fn peers_are_told_of_settings() {
    let mut observer = SettingsObserver::new_local();
    assert_eq!(observer, SettingsObserver::new_remote());
    let worktrees = vec![WorktreeSettings {
        worktree_id: 3,
        settings: vec![("".to_string(), "{}".to_string())],
        editorconfig: vec![("sub".to_string(), "root = true".to_string())],
    }];
    let updates = observer.shared(8, 40, &worktrees);
    assert_eq!(updates.len(), 2);
    assert_eq!((updates[0].project_id, updates[0].worktree_id), (8, 3));
    assert_eq!(updates[0].kind, WireSettingsKind::Settings);
    assert_eq!(updates[0].content, Some("{}".to_string()));
    assert_eq!(updates[1].kind, WireSettingsKind::Editorconfig);
    assert_eq!(updates[1].path, "sub");
    let contents = vec![
        SettingsContent {
            directory: "sub".to_string(),
            kind: LocalSettingsKind::Settings,
            content: Some("{".to_string()),
        },
        SettingsContent {
            directory: "".to_string(),
            kind: LocalSettingsKind::Settings,
            content: None,
        },
        SettingsContent {
            directory: "x".to_string(),
            kind: LocalSettingsKind::Settings,
            content: None,
        },
    ];
    let results = vec![
        SetResult::InvalidLocal {
            path: "sub/settings".to_string(),
            message: "eof".to_string(),
        },
        SetResult::Done,
        SetResult::Invalid,
    ];
    let (events, updates) = observer.update_settings(3, &contents, &results);
    assert_eq!(updates.len(), 3);
    assert_eq!(updates[1].content, None);
    assert_eq!(events.len(), 2);
    match &events[0] {
        SettingsObserverEvent::LocalSettingsUpdated(Err((path, message))) => {
            assert_eq!((path.as_str(), message.as_str()), ("sub/settings", "eof"))
        }
        other => panic!("{:?}", other),
    }
    match &events[1] {
        SettingsObserverEvent::LocalSettingsUpdated(Ok(path)) => {
            assert_eq!(path, ".zed-min/settings.json")
        }
        other => panic!("{:?}", other),
    }
    observer.unshared();
    let (_, updates) = observer.update_settings(3, &contents, &results);
    assert!(updates.is_empty());
}

#[test]
fn requests_to_language_servers_are_named() {
    assert_eq!(LspExtExpandMacro::method(), "rust-analyzer/expandMacro");
    assert_eq!(LspOpenDocs::method(), "experimental/externalDocs");
    assert_eq!(LspSwitchSourceHeader::method(), "textDocument/switchSourceHeader");
    assert_eq!(LspGoToParentModule::method(), "experimental/parentModule");
    assert_eq!(Runnables::method(), "experimental/runnables");
    assert_eq!(LspExtCancelFlycheck::method(), "rust-analyzer/cancelFlycheck");
    assert_eq!(LspExtRunFlycheck::method(), "rust-analyzer/runFlycheck");
    assert_eq!(LspExtClearFlycheck::method(), "rust-analyzer/clearFlycheck");
    let position = PointUtf16::new(1, 2);
    assert_eq!(ExpandMacro { position }.display_name(), "Expand macro");
    assert_eq!(OpenDocs { position }.display_name(), "Open docs");
    assert_eq!(SwitchSourceHeader.display_name(), "Switch source header");
    assert_eq!(GoToParentModule { position }.display_name(), "Go to parent module");
}

#[test]
fn answers_of_language_servers() {
    let position = PointUtf16::new(1, 2);
    let nothing = ExpandMacro { position }.response_from_lsp(None);
    assert!(nothing.is_empty());
    let expanded = ExpandedMacro {
        name: "vec".to_string(),
        expansion: "x".to_string(),
    };
    assert!(!expanded.is_empty());
    let sent = ExpandMacro::response_to_proto(expanded);
    assert_eq!((sent.name.as_str(), sent.expansion.as_str()), ("vec", "x"));
    let back = ExpandMacro { position }.response_from_proto(ExpandMacroResponse {
        name: sent.name,
        expansion: sent.expansion,
    });
    assert_eq!(back.name, "vec");
    assert!(DocsUrls::default().is_empty());
    let docs = OpenDocs { position }.response_from_lsp(Some(DocsUrls {
        web: Some("w".to_string()),
        local: None,
    }));
    assert!(!docs.is_empty());
    let docs = OpenDocs { position }.response_from_proto(OpenDocs::response_to_proto(docs));
    assert_eq!(docs.web, Some("w".to_string()));
    let target = SwitchSourceHeader.response_from_lsp(Some(SwitchSourceHeaderResult("a.h".to_string())));
    assert_eq!(SwitchSourceHeader::response_to_proto(target), "a.h");
    let request = position_to_proto(1, 2, 3);
    assert!(matches!(position_from_proto(&request, position), Ok(found) if found == position));
    let without = PositionRequest {
        project_id: 1,
        buffer_id: 2,
        position: None,
    };
    assert!(position_from_proto(&without, position).is_err());
}
