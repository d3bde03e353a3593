use warp_ssh_manager::import_dialog::{
    config_host_to_server_info, host_label, import_outcome_event, import_outcome_notices,
    DialogEffect, ImportNotice, ImportState,
    SshConfigImportAction, SshConfigImportDialog, SshConfigImportEvent,
};
use warp_ssh_manager::ssh_command::{build_ssh_args, build_ssh_command_line};
use warp_ssh_manager::ssh_config::SshConfigHost;
use warp_ssh_manager::types::AuthType;

const CONFIG: &str = "Host a\n  HostName 10.0.0.1\n  Port 2022\n  IdentityFile ~/.ssh/a\nHost b\n  User bob\nHost c\n";

#[test]
fn opens_with_every_host_ticked() {
    let d = SshConfigImportDialog::new(Ok(CONFIG.to_string()));
    assert!(matches!(d.state(), ImportState::Ready));
    assert_eq!(d.host_count(), 3);
    assert_eq!(d.selected_count(), 3);
    assert!(d.is_selected(0) && d.is_selected(1) && d.is_selected(2));
    assert_eq!(d.host(1).alias, "b");
}

#[test]
fn opens_empty_when_nothing_to_import() {
    let d = SshConfigImportDialog::new(Ok("Host *\n  User x\n".to_string()));
    assert!(matches!(d.state(), ImportState::Empty));
    assert_eq!(d.host_count(), 0);
    assert_eq!(d.selected_count(), 0);
}

#[test]
fn opens_on_read_error() {
    let d = SshConfigImportDialog::new(Err("permission denied".to_string()));
    match d.state() {
        ImportState::Error(m) => assert_eq!(m, "permission denied"),
        _ => panic!("expected an error state"),
    }
    assert_eq!(d.host_count(), 0);
}

#[test]
fn toggle_twice_restores() {
    let mut d = SshConfigImportDialog::new(Ok(CONFIG.to_string()));
    assert!(d.on_toggle_host(1));
    assert!(!d.is_selected(1));
    assert_eq!(d.selected_count(), 2);
    assert!(d.on_toggle_host(1));
    assert!(d.is_selected(1));
    assert_eq!(d.selected_count(), 3);
    assert!(!d.on_toggle_host(7));
    assert_eq!(d.selected_count(), 3);
}

#[test]
fn select_and_deselect_all() {
    let mut d = SshConfigImportDialog::new(Ok(CONFIG.to_string()));
    d.on_deselect_all();
    assert_eq!(d.selected_count(), 0);
    assert!(d.on_import().is_empty());
    d.on_select_all();
    assert_eq!(d.selected_count(), 3);
}

#[test]
fn import_takes_ticked_hosts_in_order() {
    let mut d = SshConfigImportDialog::new(Ok(CONFIG.to_string()));
    d.on_toggle_host(1);
    let items = d.on_import();
    assert_eq!(items.len(), 2);
    assert_eq!(items[0].0, "a");
    assert_eq!(items[0].1.host, "10.0.0.1");
    assert_eq!(items[0].1.port, 2022);
    assert_eq!(items[0].1.auth_type, AuthType::Key);
    assert_eq!(items[1].0, "c");
    assert_eq!(items[1].1.host, "c");
    assert_eq!(items[1].1.port, 22);
}

#[test]
fn handle_action_effects() {
    let mut d = SshConfigImportDialog::new(Ok(CONFIG.to_string()));
    assert!(matches!(d.handle_action(&SshConfigImportAction::ToggleHost(0)), DialogEffect::Redraw));
    assert!(matches!(d.handle_action(&SshConfigImportAction::ToggleHost(9)), DialogEffect::Nothing));
    assert!(matches!(d.handle_action(&SshConfigImportAction::DeselectAll), DialogEffect::Redraw));
    assert!(matches!(d.handle_action(&SshConfigImportAction::Import), DialogEffect::Nothing));
    assert!(matches!(d.handle_action(&SshConfigImportAction::SelectAll), DialogEffect::Redraw));
    match d.handle_action(&SshConfigImportAction::Import) {
        DialogEffect::CreateServers(items) => assert_eq!(items.len(), 3),
        _ => panic!("expected servers to create"),
    }
    assert!(matches!(
        d.handle_action(&SshConfigImportAction::Cancel),
        DialogEffect::Emit(SshConfigImportEvent::Cancelled)
    ));
}

#[test]
fn import_outcome_events() {
    match import_outcome_event(Ok(vec!["n1".to_string()])) {
        SshConfigImportEvent::ImportComplete(ids) => assert_eq!(ids, vec!["n1".to_string()]),
        _ => panic!(),
    }
    match import_outcome_event(Err("db locked".to_string())) {
        SshConfigImportEvent::Error(m) => assert_eq!(m, "db locked"),
        _ => panic!(),
    }
}

#[test]
fn server_info_from_config_host() {
    let mut h = SshConfigHost::default();
    h.alias = "srv".into();
    h.user = Some("root".into());
    h.proxy_jump = Some("jump".into());
    h.connect_timeout_secs = Some(5);
    h.server_alive_interval_secs = Some(6);
    h.server_alive_count_max = Some(7);
    h.host_key_algorithms = Some("+ssh-rsa".into());
    let s = config_host_to_server_info(&h);
    assert_eq!(s.node_id, "");
    assert_eq!(s.host, "srv");
    assert_eq!(s.port, 22);
    assert_eq!(s.username, "root");
    assert_eq!(s.auth_type, AuthType::Password);
    assert_eq!(s.key_path, None);
    assert_eq!(s.last_connected_at, None);
    assert_eq!(s.proxy_jump.as_deref(), Some("jump"));
    assert_eq!(s.connect_timeout_secs, Some(5));
    assert_eq!(s.keepalive_interval_secs, Some(6));
    assert_eq!(s.keepalive_count_max, Some(7));
    assert_eq!(s.source.as_deref(), Some("ssh_config"));
    assert_eq!(s.host_key_algorithms.as_deref(), Some("+ssh-rsa"));
    assert_eq!(s.pubkey_accepted_key_types, None);
}

#[test]
fn host_labels() {
    let mut h = SshConfigHost::default();
    h.alias = "web".into();
    assert_eq!(host_label(&h), "web  (?)");
    h.host_name = Some("web".into());
    assert_eq!(host_label(&h), "web");
    h.host_name = Some("10.1.1.1".into());
    assert_eq!(host_label(&h), "web  (10.1.1.1)");
}

#[test]
fn imported_host_reaches_the_command() {
    let mut d = SshConfigImportDialog::new(Ok(CONFIG.to_string()));
    d.on_toggle_host(2);
    let items = d.on_import();
    assert_eq!(
        build_ssh_args(&items[0].1),
        vec!["ssh", "-p", "2022", "-i", "~/.ssh/a", "10.0.0.1"]
    );
    assert_eq!(build_ssh_args(&items[1].1), vec!["ssh", "bob@b"]);
    assert_eq!(
        build_ssh_command_line(&items[0].1),
        "ssh -p 2022 -i '~/.ssh/a' 10.0.0.1"
    );
    assert_eq!(build_ssh_command_line(&items[1].1), "ssh 'bob@b'");
}

#[test]
fn selected_label_counts_ticks() {
    let mut d = SshConfigImportDialog::new(Ok(CONFIG.to_string()));
    assert_eq!(d.selected_label(), "3 selected");
    d.on_deselect_all();
    assert_eq!(d.selected_label(), "0 selected");
}

#[test]
fn import_notices_tree_change_only_on_success() {
    let ok = import_outcome_notices(Ok(vec!["n1".to_string(), "n2".to_string()]));
    assert_eq!(ok.len(), 2);
    assert!(matches!(ok[0], ImportNotice::TreeChanged));
    match &ok[1] {
        ImportNotice::Emit(SshConfigImportEvent::ImportComplete(ids)) => {
            assert_eq!(ids, &vec!["n1".to_string(), "n2".to_string()])
        }
        _ => panic!("expected ImportComplete"),
    }
    let err = import_outcome_notices(Err("db locked".to_string()));
    assert_eq!(err.len(), 1);
    match &err[0] {
        ImportNotice::Emit(SshConfigImportEvent::Error(m)) => assert_eq!(m, "db locked"),
        _ => panic!("expected Error"),
    }
}
