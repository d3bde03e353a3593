use warp_ssh_manager::ssh_config::{parse_ssh_config, SshConfigHost};

#[test]
fn parse_typical_config() {
    let config = "\
Host bastion
    HostName bastion.example.com
    Port 2222
    User admin
    IdentityFile ~/.ssh/id_bastion
    ConnectTimeout 10

Host web1
    HostName web1.internal
    User deploy
    ProxyJump bastion
    ServerAliveInterval 60
    ServerAliveCountMax 3";
    let hosts = parse_ssh_config(config);
    assert_eq!(hosts.len(), 2);

    assert_eq!(hosts[0].alias, "bastion");
    assert_eq!(hosts[0].host_name.as_deref(), Some("bastion.example.com"));
    assert_eq!(hosts[0].port, Some(2222));
    assert_eq!(hosts[0].user.as_deref(), Some("admin"));
    assert_eq!(hosts[0].connect_timeout_secs, Some(10));

    assert_eq!(hosts[1].alias, "web1");
    assert_eq!(hosts[1].proxy_jump.as_deref(), Some("bastion"));
    assert_eq!(hosts[1].server_alive_interval_secs, Some(60));
    assert_eq!(hosts[1].server_alive_count_max, Some(3));
}

#[test]
fn wildcard_host_excluded() {
    let config = "\
Host *
    ServerAliveInterval 120

Host myserver
    HostName 10.0.0.1";
    let hosts = parse_ssh_config(config);
    assert_eq!(hosts.len(), 1);
    assert_eq!(hosts[0].alias, "myserver");
}

#[test]
fn hostname_defaults_to_alias() {
    let config = "Host shortcut\n    User root";
    let hosts = parse_ssh_config(config);
    assert_eq!(hosts[0].host_name.as_deref(), Some("shortcut"));
}

#[test]
fn duplicate_directive_last_wins() {
    let config = "\
Host srv
    Port 22
    Port 2222";
    let hosts = parse_ssh_config(config);
    assert_eq!(hosts[0].port, Some(2222));
}

#[test]
fn comments_and_blanks_ignored() {
    let config = "\
# This is a comment

Host srv
    # another comment
    HostName example.com";
    let hosts = parse_ssh_config(config);
    assert_eq!(hosts.len(), 1);
    assert_eq!(hosts[0].host_name.as_deref(), Some("example.com"));
}

#[test]
fn empty_file() {
    let hosts = parse_ssh_config("");
    assert!(hosts.is_empty());
}

#[test]
fn equals_syntax() {
    let config = "Host srv\n    User=root\n    Port=2222";
    let hosts = parse_ssh_config(config);
    assert_eq!(hosts[0].user.as_deref(), Some("root"));
    assert_eq!(hosts[0].port, Some(2222));
}

#[test]
fn question_mark_pattern_excluded() {
    let hosts = parse_ssh_config("Host web-?\n  User a\nHost real\n  User b");
    assert_eq!(hosts.len(), 1);
    assert_eq!(hosts[0].alias, "real");
    assert_eq!(hosts[0].user.as_deref(), Some("b"));
}

#[test]
fn directives_outside_a_block_are_dropped() {
    let hosts = parse_ssh_config("User nobody\nPort 1\nHost a\n");
    assert_eq!(hosts.len(), 1);
    assert_eq!(hosts[0].user, None);
    assert_eq!(hosts[0].port, None);
}

#[test]
fn directives_after_wildcard_block_are_dropped() {
    let hosts = parse_ssh_config("Host a\nHost *\nUser x\n");
    assert_eq!(hosts.len(), 1);
    assert_eq!(hosts[0].alias, "a");
    assert_eq!(hosts[0].user, None);
}

#[test]
fn numeric_values_follow_str_parse() {
    let hosts = parse_ssh_config(
        "Host a\nPort +22\nConnectTimeout 007\nServerAliveInterval -1\nServerAliveCountMax 4294967295",
    );
    assert_eq!(hosts[0].port, Some(22));
    assert_eq!(hosts[0].connect_timeout_secs, Some(7));
    assert_eq!(hosts[0].server_alive_interval_secs, None);
    assert_eq!(hosts[0].server_alive_count_max, Some(4294967295));
    let hosts = parse_ssh_config("Host a\nPort 65536\nConnectTimeout 4294967296\nServerAliveInterval +");
    assert_eq!(hosts[0].port, None);
    assert_eq!(hosts[0].connect_timeout_secs, None);
    assert_eq!(hosts[0].server_alive_interval_secs, None);
    let hosts = parse_ssh_config("Host a\nPort 2222\nPort x22");
    assert_eq!(hosts[0].port, None);
}

#[test]
fn equals_with_spaces_and_crlf() {
    let hosts = parse_ssh_config("Host  srv \r\n\tHostName = example.org\r\n  User\tbob \r\n");
    assert_eq!(hosts.len(), 1);
    assert_eq!(hosts[0].alias, "srv");
    assert_eq!(hosts[0].host_name.as_deref(), Some("example.org"));
    assert_eq!(hosts[0].user.as_deref(), Some("bob"));
}

#[test]
fn unicode_whitespace_is_trimmed() {
    let hosts = parse_ssh_config("\u{3000}Host\u{00A0}box\u{2003}\n");
    assert_eq!(hosts.len(), 1);
    assert_eq!(hosts[0].alias, "box");
}

#[test]
fn line_without_value_is_skipped() {
    let hosts = parse_ssh_config("Host\nHost =\nHost a\nUser\nUser=\n");
    assert_eq!(hosts.len(), 1);
    assert_eq!(hosts[0].alias, "a");
    assert_eq!(hosts[0].user, None);
}

#[test]
fn keywords_are_case_sensitive_and_unknown_ones_ignored() {
    let hosts = parse_ssh_config("host a\nHost b\nuser x\nForwardAgent yes\nIdentityFile ~/.ssh/k\n");
    assert_eq!(hosts.len(), 1);
    assert_eq!(hosts[0].alias, "b");
    assert_eq!(hosts[0].user, None);
    assert_eq!(hosts[0].identity_file.as_deref(), Some("~/.ssh/k"));
}

#[test]
fn all_directives_are_read() {
    let hosts = parse_ssh_config(
        "Host x\nHostKeyAlgorithms +ssh-rsa\nPubkeyAcceptedKeyTypes +ssh-dss\nProxyJump j\nServerAliveCountMax 9\n",
    );
    assert_eq!(hosts[0].host_key_algorithms.as_deref(), Some("+ssh-rsa"));
    assert_eq!(hosts[0].pubkey_accepted_key_types.as_deref(), Some("+ssh-dss"));
    assert_eq!(hosts[0].proxy_jump.as_deref(), Some("j"));
    assert_eq!(hosts[0].server_alive_count_max, Some(9));
    assert_eq!(hosts[0].host_name.as_deref(), Some("x"));
}

#[test]
fn one_host_per_host_line_in_order() {
    let hosts = parse_ssh_config("Host a\nHost b\n# Host c\nHost *\nHost d");
    let aliases: Vec<&str> = hosts.iter().map(|h| h.alias.as_str()).collect();
    assert_eq!(aliases, vec!["a", "b", "d"]);
}

#[test]
fn inserting_comment_changes_nothing() {
    let a = parse_ssh_config("Host a\nPort 1\nHost b\nUser u");
    let b = parse_ssh_config("Host a\n  # note\nPort 1\n\nHost b\nUser u");
    assert_eq!(a.len(), b.len());
    for (x, y) in a.iter().zip(b.iter()) {
        assert_eq!(x.alias, y.alias);
        assert_eq!(x.port, y.port);
        assert_eq!(x.user, y.user);
        assert_eq!(x.host_name, y.host_name);
    }
}

#[test]
fn default_host_is_empty() {
    let h = SshConfigHost::default();
    assert_eq!(h.alias, "");
    assert_eq!(h.host_name, None);
    assert_eq!(h.port, None);
}

#[test]
fn config_cut_before_host_line_concatenates() {
    let a = "User g\nHost a\n  Port 2\n";
    let b = "Host *\n  User w\nHost b\n  User u\n";
    let whole = parse_ssh_config(&format!("{a}{b}"));
    let first = parse_ssh_config(a);
    let second = parse_ssh_config(b);
    assert_eq!(whole.len(), first.len() + second.len());
    let names: Vec<&str> = whole.iter().map(|h| h.alias.as_str()).collect();
    assert_eq!(names, vec!["a", "b"]);
    assert_eq!(whole[0].port, first[0].port);
    assert_eq!(whole[1].user, second[0].user);
}

#[test]
fn keyword_is_text_before_first_whitespace() {
    let hosts = parse_ssh_config("Host a\nUser  some  name \nHostName h\tx");
    assert_eq!(hosts[0].user.as_deref(), Some("some  name"));
    assert_eq!(hosts[0].host_name.as_deref(), Some("h\tx"));
}
