use zed_core::remote::connection_manager::{Manager, RECONNECT_TIMEOUT};
use zed_core::remote::disconnected_overlay::{
    DisconnectedOverlay, OverlayButton, ProjectEvent, MESSAGE,
};
use zed_core::remote::ssh_config::parse_ssh_config_hosts;
use zed_core::remote::ssh_connections::{
    is_connecting_over_ssh, RemoteSettingsContent, SshConnection, SshConnectionModal, SshPrompt,
    SshSettings,
};

#[test]
fn hosts_are_read_from_the_config() {
    let config = "Host *\n  HashKnownHosts yes\nHost host.example another\n  User me\n  HostName 10.0.0.1\nHost !bad good.example\n\tHost tabbed";
    assert_eq!(
        parse_ssh_config_hosts(config),
        vec!["another", "good.example", "host.example", "tabbed"]
    );
    assert_eq!(parse_ssh_config_hosts(""), Vec::<String>::new());
    assert_eq!(parse_ssh_config_hosts("Hostname x\nHost"), Vec::<String>::new());
}

#[test]
fn hosts_are_no_patterns() {
    for host in parse_ssh_config_hosts("Host a* *b !c d e*f") {
        assert!(!host.starts_with('!') && !host.contains('*'));
        assert_eq!(host, "d");
    }
}

#[test]
fn hosts_on_the_next_line() {
    assert_eq!(
        parse_ssh_config_hosts("Host\\\nnext.example\nother\n"),
        vec!["\\", "next.example"]
    );
}

fn connection(host: &str) -> SshConnection {
    SshConnection {
        host: host.to_string(),
        username: None,
        port: None,
        args: vec![],
        projects: vec![],
        nickname: None,
        upload_binary_over_ssh: None,
    }
}

#[test]
fn settings_are_loaded() {
    let settings = SshSettings::load(RemoteSettingsContent {
        ssh_connections: Some(vec![connection("a"), connection("b")]),
        read_ssh_config: Some(false),
    });
    assert!(!settings.read_ssh_config);
    assert_eq!(settings.ssh_connections().len(), 2);
    assert_eq!(settings.ssh_connections()[1].host, "b");
    let settings = SshSettings::load(RemoteSettingsContent {
        ssh_connections: None,
        read_ssh_config: None,
    });
    assert!(settings.read_ssh_config);
    assert!(settings.ssh_connections().is_empty());
}

fn prompt() -> SshPrompt {
    SshPrompt {
        connection_string: "host.example".to_string(),
        nickname: Some("home".to_string()),
        status_message: Some("Connecting".to_string()),
        prompt: Some(4),
        cancellation: Some(5),
    }
}

#[test]
fn prompts_are_answered_once() {
    let mut asked = prompt();
    assert_eq!(asked.confirm(), Some(4));
    assert_eq!(asked.confirm(), None);
    assert_eq!(asked.cancel(), Some(5));
    assert_eq!(asked.cancel(), None);
}

#[test]
fn modal_stays_until_it_is_done() {
    let mut modal = SshConnectionModal {
        prompt: prompt(),
        paths: vec![],
        finished: false,
    };
    assert!(is_connecting_over_ssh(Some(&modal)));
    assert!(!is_connecting_over_ssh(None));
    assert!(!modal.on_before_dismiss());
    modal.finished();
    assert!(modal.on_before_dismiss());
}

#[test]
fn overlay_is_shown_for_lost_connections() {
    assert!(DisconnectedOverlay::register(ProjectEvent::Other).is_none());
    let mut overlay = DisconnectedOverlay::register(ProjectEvent::DisconnectedFromSshRemote).unwrap();
    assert!(!overlay.on_before_dismiss());
    overlay.cancel();
    assert!(overlay.on_before_dismiss());
    let mut overlay = DisconnectedOverlay::register(ProjectEvent::DisconnectedFromHost).unwrap();
    overlay.handle_reconnect();
    assert!(overlay.on_before_dismiss());
    assert!(MESSAGE.contains("has been lost"));
    assert!(matches!(
        DisconnectedOverlay::buttons().as_slice(),
        [OverlayButton::CloseWindow]
    ));
}

#[test]
fn manager_keeps_living_projects() {
    assert_eq!(RECONNECT_TIMEOUT, 30);
    let mut manager = Manager::new();
    manager.maintain_project_connection(1);
    manager.maintain_project_connection(2);
    manager.maintain_project_connection(1);
    assert_eq!(manager.projects, vec![1, 2]);
    manager.maintain_connection = Some(9);
    manager.project_released(&vec![Some(Some(10)), Some(Some(20))], Some(10));
    assert_eq!(manager.projects, vec![2]);
    assert_eq!(manager.maintain_connection, Some(9));
    manager.project_released(&vec![None], Some(7));
    assert!(manager.projects.is_empty());
    assert_eq!(manager.maintain_connection, None);
}

#[test]
fn header_names_the_server_and_the_paths() {
    let mut named = prompt();
    named.connection_string = "user@host".to_string();
    named.nickname = Some("box".to_string());
    let mut modal = SshConnectionModal {
        prompt: named,
        paths: vec!["/work".to_string(), "/home".to_string()],
        finished: false,
    };
    let header = modal.header();
    assert_eq!(header.main_label, "box");
    assert_eq!(header.meta_label, Some("(user@host)".to_string()));
    assert_eq!(header.paths, vec!["/work".to_string(), "/home".to_string()]);
    modal.prompt.nickname = None;
    let header = modal.header();
    assert_eq!(header.main_label, "user@host");
    assert_eq!(header.meta_label, None);
}
