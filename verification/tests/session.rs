use domlist::{
    auth_outcome, command_outcome, host_key_verdict, target_host, verify_known_host,
    HostKeyCheck, SSH_PORT,
};

#[test]
fn default_target_is_localhost() {
    assert_eq!(target_host(None), "127.0.0.1");
    assert_eq!(
        target_host(Some("node1.example.com".to_string())),
        "node1.example.com"
    );
    assert_eq!(SSH_PORT, 22);
}

#[test]
fn matching_key_is_trusted() {
    assert_eq!(host_key_verdict(HostKeyCheck::Match, "h"), Ok(None));
}

#[test]
fn unknown_host_only_warns() {
    assert_eq!(
        host_key_verdict(HostKeyCheck::NotFound, "node1"),
        Ok(Some(
            "Warning: node1 is not in ~/.ssh/known_hosts; its identity could not be verified."
                .to_string()
        ))
    );
}

#[test]
fn mismatching_key_is_refused() {
    assert_eq!(
        host_key_verdict(HostKeyCheck::Mismatch, "node1"),
        Err("Host key for node1 does NOT match ~/.ssh/known_hosts! Refusing to connect (possible MITM).".to_string())
    );
}

#[test]
fn failed_lookup_is_refused() {
    assert_eq!(
        host_key_verdict(HostKeyCheck::Failure, "node1"),
        Err("Failed to check host key for node1".to_string())
    );
}

#[test]
fn known_hosts_lookup_for_unlisted_host_warns() {
    let session = ssh2::Session::new().unwrap();
    let known = session.known_hosts().unwrap();
    let r = verify_known_host(&known, "node1.example.com", b"some key bytes");
    assert_eq!(
        r,
        Ok(Some(
            "Warning: node1.example.com is not in ~/.ssh/known_hosts; its identity could not be verified."
                .to_string()
        ))
    );
}

#[test]
fn authentication_outcome() {
    assert_eq!(auth_outcome(true, "alice"), Ok(()));
    assert_eq!(
        auth_outcome(false, "alice"),
        Err("SSH authentication as alice was not accepted".to_string())
    );
}

#[test]
fn successful_command_gives_stdout() {
    assert_eq!(
        command_outcome(0, "out\n".to_string(), "warn", "ls"),
        Ok("out\n".to_string())
    );
}

#[test]
fn failed_command_reports_status_and_stderr() {
    assert_eq!(
        command_outcome(1, "out".to_string(), "  sudo: a password is required \n", "sudo virsh list"),
        Err("Remote command exited with status 1: sudo: a password is required\ncommand: sudo virsh list".to_string())
    );
    assert_eq!(
        command_outcome(-255, String::new(), "", "x"),
        Err("Remote command exited with status -255: \ncommand: x".to_string())
    );
}

#[test]
fn known_hosts_lookup_for_listed_host() {
    let session = ssh2::Session::new().unwrap();
    let mut known = session.known_hosts().unwrap();
    known
        .add("node2.example.com", b"first key", "test", ssh2::KnownHostKeyFormat::SshRsa)
        .unwrap();
    assert_eq!(
        verify_known_host(&known, "node2.example.com", b"first key"),
        Ok(None)
    );
    assert_eq!(
        verify_known_host(&known, "node2.example.com", b"other key"),
        Err("Host key for node2.example.com does NOT match ~/.ssh/known_hosts! Refusing to connect (possible MITM).".to_string())
    );
}

#[test]
fn unreadable_known_hosts_are_refused() {
    let session = ssh2::Session::new().unwrap();
    let known = session.known_hosts().unwrap();
    assert_eq!(
        domlist::verify_host_key(&known, Some("malformed line 3".to_string()), "node3", b"k"),
        Err("Failed to read ~/.ssh/known_hosts: malformed line 3".to_string())
    );
}

#[test]
fn empty_known_hosts_only_warn() {
    let session = ssh2::Session::new().unwrap();
    let known = session.known_hosts().unwrap();
    assert_eq!(
        domlist::verify_host_key(&known, None, "node6", b"k"),
        Ok(Some(
            "Warning: node6 is not in ~/.ssh/known_hosts; its identity could not be verified."
                .to_string()
        ))
    );
}

#[test]
fn readable_known_hosts_are_looked_up() {
    let session = ssh2::Session::new().unwrap();
    let mut known = session.known_hosts().unwrap();
    known
        .add("node4", b"key four", "test", ssh2::KnownHostKeyFormat::SshRsa)
        .unwrap();
    assert_eq!(domlist::verify_host_key(&known, None, "node4", b"key four"), Ok(None));
    assert_eq!(
        domlist::verify_host_key(&known, None, "node4", b"wrong"),
        Err("Host key for node4 does NOT match ~/.ssh/known_hosts! Refusing to connect (possible MITM).".to_string())
    );
    assert_eq!(
        domlist::verify_host_key(&known, None, "node5", b"key four"),
        Ok(Some(
            "Warning: node5 is not in ~/.ssh/known_hosts; its identity could not be verified."
                .to_string()
        ))
    );
}
