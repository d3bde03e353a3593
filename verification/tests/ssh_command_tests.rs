use warp_ssh_manager::ssh_command::{build_ssh_args, build_ssh_command_line};
use warp_ssh_manager::types::{AuthType, SshServerInfo};

fn server() -> SshServerInfo {
    SshServerInfo {
        node_id: "n".into(),
        host: "1.2.3.4".into(),
        port: 22,
        username: "alice".into(),
        auth_type: AuthType::Password,
        key_path: None,
        last_connected_at: None,
        proxy_jump: None,
        connect_timeout_secs: None,
        keepalive_interval_secs: None,
        keepalive_count_max: None,
        source: None,
        host_key_algorithms: None,
        pubkey_accepted_key_types: None,
    }
}

#[test]
fn default_port_omitted() {
    let s = server();
    assert_eq!(build_ssh_args(&s), vec!["ssh", "alice@1.2.3.4"]);
    let line = build_ssh_command_line(&s);
    assert!(
        line == "ssh alice@1.2.3.4" || line == "ssh 'alice@1.2.3.4'",
        "unexpected: {line}"
    );
}

#[test]
fn custom_port_uses_dash_p() {
    let mut s = server();
    s.port = 2222;
    assert_eq!(build_ssh_args(&s), vec!["ssh", "-p", "2222", "alice@1.2.3.4"]);
}

#[test]
fn key_auth_emits_dash_i() {
    let mut s = server();
    s.auth_type = AuthType::Key;
    s.key_path = Some("/home/u/.ssh/id_ed25519".into());
    assert_eq!(
        build_ssh_args(&s),
        vec!["ssh", "-i", "/home/u/.ssh/id_ed25519", "alice@1.2.3.4"]
    );
}

#[test]
fn key_auth_without_path_is_skipped() {
    let mut s = server();
    s.auth_type = AuthType::Key;
    s.key_path = None;
    assert_eq!(build_ssh_args(&s), vec!["ssh", "alice@1.2.3.4"]);
}

#[test]
fn empty_username_yields_host_only() {
    let mut s = server();
    s.username = String::new();
    assert_eq!(build_ssh_args(&s), vec!["ssh", "1.2.3.4"]);
}

#[test]
fn shell_escapes_spaces_in_path() {
    let mut s = server();
    s.auth_type = AuthType::Key;
    s.key_path = Some("/path with spaces/id_rsa".into());
    let line = build_ssh_command_line(&s);
    assert!(line.contains("'/path with spaces/id_rsa'"), "actual: {line}");
}

#[test]
fn proxy_jump_emits_option() {
    let mut s = server();
    s.proxy_jump = Some("bastion".into());
    assert_eq!(
        build_ssh_args(&s),
        vec!["ssh", "-o", "ProxyJump=bastion", "alice@1.2.3.4"]
    );
}

#[test]
fn empty_proxy_jump_skipped() {
    let mut s = server();
    s.proxy_jump = Some(String::new());
    assert_eq!(build_ssh_args(&s), vec!["ssh", "alice@1.2.3.4"]);
}

#[test]
fn connect_timeout_emits_option() {
    let mut s = server();
    s.connect_timeout_secs = Some(30);
    assert_eq!(
        build_ssh_args(&s),
        vec!["ssh", "-o", "ConnectTimeout=30", "alice@1.2.3.4"]
    );
}

#[test]
fn keepalive_options_emitted() {
    let mut s = server();
    s.keepalive_interval_secs = Some(60);
    s.keepalive_count_max = Some(3);
    assert_eq!(
        build_ssh_args(&s),
        vec![
            "ssh",
            "-o",
            "ServerAliveInterval=60",
            "-o",
            "ServerAliveCountMax=3",
            "alice@1.2.3.4"
        ]
    );
}

#[test]
fn all_advanced_options_together() {
    let mut s = server();
    s.port = 2222;
    s.auth_type = AuthType::Key;
    s.key_path = Some("/key".into());
    s.proxy_jump = Some("jump".into());
    s.connect_timeout_secs = Some(10);
    s.keepalive_interval_secs = Some(30);
    s.keepalive_count_max = Some(5);
    s.host_key_algorithms = Some("+ssh-rsa".into());
    s.pubkey_accepted_key_types = Some("+ssh-rsa".into());
    assert_eq!(
        build_ssh_args(&s),
        vec![
            "ssh",
            "-p",
            "2222",
            "-i",
            "/key",
            "-o",
            "ProxyJump=jump",
            "-o",
            "ConnectTimeout=10",
            "-o",
            "ServerAliveInterval=30",
            "-o",
            "ServerAliveCountMax=5",
            "-o",
            "HostKeyAlgorithms=+ssh-rsa",
            "-o",
            "PubkeyAcceptedKeyTypes=+ssh-rsa",
            "alice@1.2.3.4"
        ]
    );
}

#[test]
fn host_key_algorithms_emits_option() {
    let mut s = server();
    s.host_key_algorithms = Some("+ssh-rsa".into());
    assert_eq!(
        build_ssh_args(&s),
        vec!["ssh", "-o", "HostKeyAlgorithms=+ssh-rsa", "alice@1.2.3.4"]
    );
}

#[test]
fn pubkey_accepted_key_types_emits_option() {
    let mut s = server();
    s.pubkey_accepted_key_types = Some("+ssh-rsa".into());
    assert_eq!(
        build_ssh_args(&s),
        vec!["ssh", "-o", "PubkeyAcceptedKeyTypes=+ssh-rsa", "alice@1.2.3.4"]
    );
}

#[test]
fn empty_algorithm_options_skipped() {
    let mut s = server();
    s.host_key_algorithms = Some(String::new());
    s.pubkey_accepted_key_types = Some(String::new());
    assert_eq!(build_ssh_args(&s), vec!["ssh", "alice@1.2.3.4"]);
}

#[test]
fn password_auth_ignores_key_path() {
    let mut s = server();
    s.key_path = Some("/key".into());
    assert_eq!(build_ssh_args(&s), vec!["ssh", "alice@1.2.3.4"]);
}

#[test]
fn key_auth_with_empty_path_is_skipped() {
    let mut s = server();
    s.auth_type = AuthType::Key;
    s.key_path = Some(String::new());
    assert_eq!(build_ssh_args(&s), vec!["ssh", "alice@1.2.3.4"]);
}

#[test]
fn extreme_numbers_are_written_in_decimal() {
    let mut s = server();
    s.port = 65535;
    s.connect_timeout_secs = Some(0);
    s.keepalive_interval_secs = Some(4294967295);
    assert_eq!(
        build_ssh_args(&s),
        vec![
            "ssh",
            "-p",
            "65535",
            "-o",
            "ConnectTimeout=0",
            "-o",
            "ServerAliveInterval=4294967295",
            "alice@1.2.3.4"
        ]
    );
    s.port = 0;
    assert_eq!(build_ssh_args(&s)[2], "0");
}

#[test]
fn command_line_quotes_only_unsafe_words() {
    let mut s = server();
    s.port = 2200;
    s.username = String::new();
    s.host = "example.com".into();
    s.proxy_jump = Some("a b".into());
    assert_eq!(
        build_ssh_command_line(&s),
        "ssh -p 2200 -o 'ProxyJump=a b' example.com"
    );
}

#[test]
fn command_line_escapes_quotes_and_bangs() {
    let mut s = server();
    s.username = "o'neil".into();
    s.host = "h!".into();
    assert_eq!(build_ssh_command_line(&s), "ssh 'o'\\''neil@h'\\!''");
}

#[test]
fn command_line_quotes_empty_host() {
    let mut s = server();
    s.username = String::new();
    s.host = String::new();
    assert_eq!(build_ssh_command_line(&s), "ssh ''");
}
