use lspdock::binder::{bind_target, copy_command, path_parent};
use lspdock::config::ProxyConfig;
use lspdock::pid::PidHandler;
use lspdock::proxy::{
    finish_binding, plan_goto_response, process_client_message, process_server_message,
    ClientState, EmptyWatch, ServerOutcome,
};
use lspdock::tracker::{goto_methods, PluginAction, PluginRegistry, RequestTracker, ServerVerdict};
use lspdock::types::{MessageError, Pair};

fn config_for(local: &[u8], docker: &[u8]) -> ProxyConfig {
    ProxyConfig {
        container: b"devbox".to_vec(),
        docker_internal_path: docker.to_vec(),
        local_path: local.to_vec(),
        executable: b"pyright-langserver".to_vec(),
        patch_pid: None,
        log_level: b"info".to_vec(),
        use_docker: true,
    }
}

fn goto_registry() -> PluginRegistry {
    let mut registry = PluginRegistry::new();
    registry.register(goto_methods(), PluginAction::RedirectGoto);
    registry
}

#[test]
fn pid_patch_applies_once() {
    let mut handler = PidHandler::new();
    let mut msg = b"{\"method\":\"initialize\",\"params\":{\"processId\":12345}}".to_vec();

    let applied = handler.try_take_initialize_process_id(&mut msg);
    assert!(applied);
    assert_eq!(handler.pid, Some(12345));
    let body = String::from_utf8(msg.clone()).unwrap();
    assert!(body.contains("\"processId\":null"));

    // a second call does not re-patch
    let mut second = b"{\"method\":\"initialize\",\"params\":{\"processId\":777}}".to_vec();
    let again = handler.try_take_initialize_process_id(&mut second);
    assert!(!again);
    assert_eq!(handler.pid, Some(12345));
    assert!(String::from_utf8(second).unwrap().contains("\"processId\":777"));
}

#[test]
fn pid_patch_ignores_other_messages() {
    let mut handler = PidHandler::new();
    let original = b"{\"method\":\"textDocument/didOpen\",\"params\":{\"processId\":1}}".to_vec();
    let mut msg = original.clone();
    assert!(!handler.try_take_initialize_process_id(&mut msg));
    assert_eq!(msg, original);
    assert_eq!(handler.pid, None);
}

#[test]
fn tracker_matches_response_exactly_once() {
    let config = config_for(b"/test/path", b"/usr/home/app");
    let mut tracker = RequestTracker::new(config, goto_registry());
    let mut state = ClientState::new();

    let request =
        b"{\"id\":4,\"method\":\"textDocument/definition\",\"params\":{}}".to_vec();
    let out = process_client_message(&mut state, &mut tracker, request.clone()).unwrap();
    assert_eq!(out, request);

    let response = b"{\"id\":4,\"result\":[]}".to_vec();
    match process_server_message(&mut tracker, response.clone()).unwrap() {
        ServerOutcome::RunActions { id, method, actions, .. } => {
            assert_eq!(id, 4);
            assert_eq!(method, b"textDocument/definition".to_vec());
            assert_eq!(actions, vec![PluginAction::RedirectGoto]);
        },
        _ => panic!("the response must match the tracked request"),
    }

    // the entry is gone: the same response passes through untouched
    match process_server_message(&mut tracker, response.clone()).unwrap() {
        ServerOutcome::Forward(v) => assert_eq!(v, response),
        _ => panic!("a second response must not match"),
    }
}

#[test]
fn tracker_ignores_notifications_and_unknown_ids() {
    let config = config_for(b"/test/path", b"/usr/home/app");
    let mut tracker = RequestTracker::new(config, goto_registry());
    let mut state = ClientState::new();

    // a notification: watched method but no id
    let note = b"{\"method\":\"textDocument/definition\",\"params\":{}}".to_vec();
    process_client_message(&mut state, &mut tracker, note).unwrap();

    // nothing pending: any response passes
    let response = b"{\"id\":9,\"result\":[]}".to_vec();
    match process_server_message(&mut tracker, response.clone()).unwrap() {
        ServerOutcome::Forward(v) => assert_eq!(v, response),
        _ => panic!("nothing was pending"),
    }
}

#[test]
fn tracked_request_with_bad_json_is_an_error() {
    let config = config_for(b"/test/path", b"/usr/home/app");
    let mut tracker = RequestTracker::new(config, goto_registry());
    let mut state = ClientState::new();

    let broken = b"{\"method\":\"textDocument/definition\",".to_vec();
    let r = process_client_message(&mut state, &mut tracker, broken);
    assert!(r.is_err());
}

#[test]
fn goto_binding_rewrites_external_uri() {
    let config = config_for(b"/test/path", b"/usr/home/app");
    let mut tracker = RequestTracker::new(config, goto_registry());
    let mut state = ClientState::new();

    let request =
        b"{\"id\":4,\"method\":\"textDocument/definition\",\"params\":{}}".to_vec();
    process_client_message(&mut state, &mut tracker, request).unwrap();

    let response =
        b"{\"id\":4,\"result\":[{\"uri\":\"file:///usr/local/lib/foo/bar.py\",\"range\":{}}]}"
            .to_vec();
    let (msg, actions) = match process_server_message(&mut tracker, response).unwrap() {
        ServerOutcome::RunActions { msg, actions, .. } => (msg, actions),
        _ => panic!("the goto response must match"),
    };
    assert_eq!(actions, vec![PluginAction::RedirectGoto]);

    let plan = plan_goto_response(&msg, b"/test/path", b"/tmp/lspdock").unwrap();
    assert_eq!(plan.new_uris.len(), 1);
    assert_eq!(
        plan.new_uris[0],
        Some(b"file:///tmp/lspdock/usr/local/lib/foo/bar.py".to_vec())
    );
    assert_eq!(plan.copies.len(), 1);
    assert_eq!(plan.copies[0].src, b"/usr/local/lib/foo/bar.py".to_vec());
    assert_eq!(plan.copies[0].dest, b"/tmp/lspdock/usr/local/lib/foo/bar.py".to_vec());

    // the copy is a `docker exec <container> cat <path>`
    let cmd = copy_command(b"devbox", &plan.copies[0].src);
    assert_eq!(
        cmd,
        vec![
            b"docker".to_vec(),
            b"exec".to_vec(),
            b"devbox".to_vec(),
            b"cat".to_vec(),
            b"/usr/local/lib/foo/bar.py".to_vec(),
        ]
    );

    let bound = finish_binding(&msg, &plan.new_uris).unwrap();
    let body = String::from_utf8(bound).unwrap();
    assert!(body.contains("\"uri\":\"file:///tmp/lspdock/usr/local/lib/foo/bar.py\""));
}

#[test]
fn goto_binding_leaves_workspace_uris_alone() {
    let plan = plan_goto_response(
        b"{\"id\":4,\"result\":[{\"uri\":\"file:///test/path/src/main.py\"}]}",
        b"/test/path",
        b"/tmp/lspdock",
    )
    .unwrap();
    assert_eq!(plan.new_uris, vec![None]);
    assert!(plan.copies.is_empty());
}

#[test]
fn binding_is_idempotent_on_bound_uris() {
    let root = b"/tmp/lspdock";
    let once = bind_target(b"file:///usr/local/lib/foo.py", root);
    assert_eq!(once, b"/tmp/lspdock/usr/local/lib/foo.py".to_vec());
    let mut bound = b"file://".to_vec();
    bound.extend_from_slice(&once);
    let twice = bind_target(&bound, root);
    assert_eq!(twice, once);
}

#[test]
fn empty_watch_shuts_down_after_threshold() {
    let mut watch = EmptyWatch::new();
    for _ in 0..14 {
        assert!(!watch.note_batch(0));
    }
    assert!(!watch.note_batch(3));
    for _ in 0..14 {
        assert!(!watch.note_batch(0));
    }
    assert!(watch.note_batch(0));
}

#[test]
fn message_error_text() {
    let e = MessageError::new();
    assert_eq!(e.text(), b"Unexpected message".to_vec());
    let r: Result<u8, MessageError> = MessageError::err();
    assert!(r.is_err());
}

#[test]
fn initialize_root_patch_through_client_pipeline() {
    let config = config_for(b"/test/path/app", b"/usr/home/app");
    let mut tracker = RequestTracker::new(config, goto_registry());
    let mut state = ClientState::new();

    let request = b"{\"method\":\"initialize\",\"rootUri\":\"file:///test/path\",\"rootPath\":\"/test/path\"}"
        .to_vec();
    let out = process_client_message(&mut state, &mut tracker, request).unwrap();
    let body = String::from_utf8(out).unwrap();
    assert!(body.contains("\"rootUri\":\"file:///usr/home/app\""));
    assert!(body.contains("\"rootPath\":\"file:///usr/home/app\""));
}

#[test]
fn check_for_methods_dispatches_by_direction() {
    let config = config_for(b"/test/path", b"/usr/home/app");
    let mut tracker = RequestTracker::new(config, goto_registry());

    let request =
        b"{\"id\":7,\"method\":\"textDocument/declaration\",\"params\":{}}".to_vec();
    match tracker.check_for_methods(&request, &Pair::Client).unwrap() {
        ServerVerdict::Pass => {},
        _ => panic!("client messages always pass"),
    }

    let response = b"{\"id\":7,\"result\":[]}".to_vec();
    match tracker.check_for_methods(&response, &Pair::Server).unwrap() {
        ServerVerdict::Matched { id, method, .. } => {
            assert_eq!(id, 7);
            assert_eq!(method, b"textDocument/declaration".to_vec());
        },
        _ => panic!("the response must match"),
    }
}

#[test]
fn parent_directory_of_a_mirror_path() {
    assert_eq!(
        path_parent(b"/tmp/lspdock/usr/lib/foo.py"),
        Some(b"/tmp/lspdock/usr/lib".to_vec())
    );
    assert_eq!(path_parent(b"foo.py"), None);
}
