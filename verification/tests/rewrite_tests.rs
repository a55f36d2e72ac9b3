use lspdock::config::ProxyConfig;
use lspdock::rewrite::{ensure_root, redirect_uri};
use lspdock::types::Pair;

fn construct_config() -> ProxyConfig {
    ProxyConfig {
        container: b"test".to_vec(),
        docker_internal_path: b"/usr/home/app".to_vec(),
        local_path: b"/test/path".to_vec(),
        executable: b"rust-analyzer".to_vec(),
        patch_pid: None,
        log_level: b"info".to_vec(),
        use_docker: true,
    }
}

#[test]
fn redirect_single_uri() {
    let config = construct_config();
    let mut request = b"{\"uri\":\"/test/path\"}".to_vec();
    let expected = b"{\"uri\":\"/usr/home/app\"}".to_vec();

    redirect_uri(&mut request, &Pair::Client, &config);

    assert_eq!(expected, request);
}

#[test]
fn redirect_multiples_uris() {
    let config = construct_config();

    // From Client to Server
    let rq =
        b"{\"uri\":\"/test/path\",\"method\":\"text/document\",\"workspaceFolder\":\"/test/path\"}"
            .to_vec();
    let ex =
        b"{\"uri\":\"/usr/home/app\",\"method\":\"text/document\",\"workspaceFolder\":\"/usr/home/app\"}"
            .to_vec();

    let mut request = rq.clone();
    let mut expected = ex;

    redirect_uri(&mut request, &Pair::Client, &config);
    assert_eq!(expected, request);

    // From Server to Client
    redirect_uri(&mut expected, &Pair::Server, &config);
    assert_eq!(rq, expected);
}

#[test]
fn ensure_root_patches_correctly() {
    let mut config = construct_config();
    config.local_path = b"/test/path/app".to_vec();

    let msg =
        b"{\"method\":\"initialize\",\"rootUri\":\"file:///test/path\",\"rootPath\":\"/test/path\"}";

    let mut request = msg.to_vec();
    ensure_root(&mut request, &config);

    let body = String::from_utf8(request).unwrap();
    assert!(body.contains("\"rootUri\":\"file:///usr/home/app\""));
    assert!(body.contains("\"rootPath\":\"file:///usr/home/app\""));
}

#[test]
fn ensure_root_patches_workspace_folders() {
    let config = construct_config();
    let msg_a = "{\"method\":\"initialize\",\"rootUri\":\"file:///test/path\",";
    let msg_b = "\"workspaceFolders\":[{\"uri\":\"file:///test/path\",\"name\":\"a\"},";
    let msg_c = "{\"uri\":\"file:///other\",\"name\":\"b\"}]}";
    let msg = format!("{msg_a}{msg_b}{msg_c}");
    let mut request = msg.as_bytes().to_vec();
    ensure_root(&mut request, &config);
    let body = String::from_utf8(request).unwrap();
    assert!(body.contains("\"rootUri\":\"file:///usr/home/app\""));
    assert!(body.contains("{\"uri\":\"file:///usr/home/app\",\"name\":\"a\"}"));
    assert!(body.contains("{\"uri\":\"file:///usr/home/app\",\"name\":\"b\"}"));
}

#[test]
fn windows_use_escaped_colon() {
    let config = ProxyConfig {
        container: b"test".to_vec(),
        docker_internal_path: b"/usr/home/app".to_vec(),
        local_path: b"/c%3A/Users/testUser/dev".to_vec(),
        executable: b"rust-analyzer".to_vec(),
        patch_pid: None,
        log_level: b"info".to_vec(),
        use_docker: true,
    };

    let mut msg_bytes = b"{\"uri\":\"/c%3A/Users/testUser/dev/somefile.rs\"}".to_vec();
    let msg_expected = b"{\"uri\":\"/usr/home/app/somefile.rs\"}".to_vec();

    redirect_uri(&mut msg_bytes, &Pair::Client, &config);

    assert_eq!(msg_expected, msg_bytes);
}

#[test]
fn transparent_for_unrelated_bodies() {
    let config = construct_config();
    let original = b"{\"method\":\"textDocument/didOpen\",\"params\":{\"x\":1}}".to_vec();
    let mut msg = original.clone();
    redirect_uri(&mut msg, &Pair::Client, &config);
    assert_eq!(msg, original);
    redirect_uri(&mut msg, &Pair::Server, &config);
    assert_eq!(msg, original);
}
