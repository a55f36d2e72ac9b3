use lspdock::cli::{first_arg_is_known_flag, Cli};
use lspdock::config::{
    cwd_matches_pattern, decide_use_docker, encode_path, extract_binary_name, normalize_win_local,
    resolve_config_path, ConfigParseError, PathType, ProxyConfig, ProxyConfigToml,
};
use lspdock::variables::{expand_into_config, VariableCwd, VariableHome, VariableParent, VariableResolver};

fn plain_config(local: &[u8], docker: &[u8]) -> ProxyConfig {
    ProxyConfig {
        container: b"test".to_vec(),
        docker_internal_path: docker.to_vec(),
        local_path: local.to_vec(),
        executable: b"rust-analyzer".to_vec(),
        patch_pid: None,
        log_level: b"info".to_vec(),
        use_docker: true,
    }
}

#[test]
fn extract_binary_name_properly() {
    let full_path = b"/home/someone/bin/lspdock";
    let expect = b"lspdock".to_vec();
    assert_eq!(extract_binary_name(full_path), expect);

    let full_path = b"/home/someone/bin/rust-analyzer";
    let expect = b"rust-analyzer".to_vec();
    assert_eq!(extract_binary_name(full_path), expect);

    let full_path = b"/";
    let expect = b"lspdock".to_vec();
    assert_eq!(extract_binary_name(full_path), expect);

    let full_path = b"";
    let expect = b"lspdock".to_vec();
    assert_eq!(extract_binary_name(full_path), expect);
}

#[test]
fn windows_normalize_local() {
    let local_path = b"C:\\Users\\testUser\\dev";
    let normalized = normalize_win_local(local_path);
    assert_eq!(normalized, b"/c:/Users/testUser/dev".to_vec());
}

#[test]
fn windows_extact_binary_name() {
    let full_path = b"\\home\\someone\\bin\\rust-analyzer.exe";
    let expect = b"rust-analyzer".to_vec();
    assert_eq!(extract_binary_name(full_path), expect);

    let full_path = b"\\home\\someone\\bin\\rust-analyzer";
    let expect = b"rust-analyzer".to_vec();
    assert_eq!(extract_binary_name(full_path), expect);
}

#[test]
fn windows_detect_colon_type() {
    let config_toml = ProxyConfigToml {
        container: Some(b"test".to_vec()),
        docker_internal_path: Some(b"/usr/home/app".to_vec()),
        local_path: Some(b"/c:/Users/testUser/dev".to_vec()),
        executable: None,
        pattern: None,
        patch_pid: None,
        log_level: None,
    };

    let mut config = ProxyConfig::from_proxy_config_toml(
        config_toml.clone(),
        true,
        None,
        b"/usr/bin/testproxy",
        None,
    )
    .ok()
    .unwrap();

    // Encoded
    let msg_with_colon = b"{\"uri\":\"/c%3A/Users/testUser/dev/somefile.rs\"}";
    encode_path(msg_with_colon, &mut config);
    assert_eq!(config.local_path, b"/c%3A/Users/testUser/dev".to_vec());

    // With raw colon
    let mut config = ProxyConfig::from_proxy_config_toml(
        config_toml,
        true,
        None,
        b"/usr/bin/testproxy",
        None,
    )
    .ok()
    .unwrap();
    let msg_with_colon = b"{\"uri\":\"/c:/Users/testUser/dev/somefile.rs\"}";
    encode_path(msg_with_colon, &mut config);
    assert_eq!(config.local_path, b"/c:/Users/testUser/dev".to_vec());
}

#[test]
fn variable_expansion_fills_all_fields() {
    let config = ProxyConfigToml {
        container: Some(b"$PARENT-web-1".to_vec()),
        docker_internal_path: Some(b"/some/path".to_vec()),
        local_path: Some(b"$CWD/app".to_vec()),
        executable: Some(b"rust_analyzer".to_vec()),
        pattern: Some(b"$HOME/dev".to_vec()),
        patch_pid: None,
        log_level: None,
    };

    let par_var = VariableParent::new(b"proj".to_vec());
    let cwd_var = VariableCwd::new(b"/work/proj".to_vec());
    let home_var = VariableHome::new(b"/home/user".to_vec());

    let config = par_var.expand(config);
    let config = cwd_var.expand(config);
    let config = home_var.expand(config);

    assert_eq!(config.container, Some(b"proj-web-1".to_vec()));
    assert_eq!(config.local_path, Some(b"/work/proj/app".to_vec()));
    assert_eq!(config.pattern, Some(b"/home/user/dev".to_vec()));
    assert_eq!(config.executable, Some(b"rust_analyzer".to_vec()));
}

#[test]
fn expand_replaces_every_occurrence() {
    let config = ProxyConfigToml {
        container: None,
        docker_internal_path: None,
        local_path: Some(b"$CWD/a/$CWD".to_vec()),
        executable: None,
        pattern: None,
        patch_pid: None,
        log_level: None,
    };
    let out = expand_into_config(config, b"$CWD", b"/w");
    assert_eq!(out.local_path, Some(b"/w/a//w".to_vec()));
    assert_eq!(out.container, None);
}

#[test]
fn from_toml_missing_local_path() {
    let toml = ProxyConfigToml {
        container: None,
        docker_internal_path: None,
        local_path: None,
        executable: None,
        pattern: None,
        patch_pid: None,
        log_level: None,
    };
    match ProxyConfig::from_proxy_config_toml(toml, true, None, b"/bin/other", None) {
        Err(ConfigParseError::MissingField(f)) => assert_eq!(f, b"local_path".to_vec()),
        _ => panic!("expected a missing local_path"),
    }
}

#[test]
fn from_toml_missing_executable() {
    let toml = ProxyConfigToml {
        container: None,
        docker_internal_path: None,
        local_path: Some(b"/test/path".to_vec()),
        executable: None,
        pattern: None,
        patch_pid: None,
        log_level: None,
    };
    match ProxyConfig::from_proxy_config_toml(toml, true, None, b"/usr/local/bin/lspdock", None) {
        Err(ConfigParseError::MissingField(f)) => assert_eq!(f, b"executable".to_vec()),
        _ => panic!("expected a missing executable"),
    }
}

#[test]
fn from_toml_docker_disabled_without_container() {
    let toml = ProxyConfigToml {
        container: None,
        docker_internal_path: Some(b"/usr/home/app".to_vec()),
        local_path: Some(b"/test/path".to_vec()),
        executable: Some(b"pyright".to_vec()),
        pattern: None,
        patch_pid: None,
        log_level: None,
    };
    let cfg = ProxyConfig::from_proxy_config_toml(toml, true, None, b"/b/lspdock", None)
        .ok()
        .unwrap();
    assert!(!cfg.use_docker);
    assert_eq!(cfg.container, b"".to_vec());
    assert_eq!(cfg.executable, b"pyright".to_vec());
    assert_eq!(cfg.log_level, b"info".to_vec());
}

#[test]
fn config_error_messages() {
    let e = ConfigParseError::FileError(b"gone".to_vec());
    assert_eq!(e.message(), b"File cannot be readed: gone".to_vec());
    let e = ConfigParseError::DeserializationError(b"bad toml".to_vec());
    assert_eq!(e.message(), b"Error parsing config file: bad toml".to_vec());
    let e = ConfigParseError::MissingField(b"local_path".to_vec());
    assert_eq!(e.message(), b"local_path must be provided".to_vec());
}

#[test]
fn merge_cli_precedence() {
    let toml = ProxyConfigToml {
        container: Some(b"from-file".to_vec()),
        docker_internal_path: Some(b"/file/docker".to_vec()),
        local_path: None,
        executable: Some(b"pyright".to_vec()),
        pattern: None,
        patch_pid: None,
        log_level: Some(b"info".to_vec()),
    };
    let cli = Cli {
        container: Some(b"from-cli".to_vec()),
        docker_path: None,
        local_path: Some(b"/cli/local".to_vec()),
        executable: None,
        pids: Some(vec![b"pyright".to_vec()]),
        pattern: None,
        log_level: None,
        args: vec![],
    };
    let merged = toml.clone().merge_cli(cli);
    assert_eq!(merged.container, Some(b"from-cli".to_vec()));
    assert_eq!(merged.docker_internal_path, Some(b"/file/docker".to_vec()));
    assert_eq!(merged.local_path, Some(b"/cli/local".to_vec()));
    assert_eq!(merged.executable, Some(b"pyright".to_vec()));
    assert_eq!(merged.patch_pid, Some(vec![b"pyright".to_vec()]));
    assert_eq!(merged.log_level, Some(b"info".to_vec()));
}

#[test]
fn requires_patch_pid_by_basename() {
    let mut cfg = plain_config(b"/test/path", b"/usr/home/app");
    cfg.executable = b"/usr/bin/pyright-langserver".to_vec();
    cfg.patch_pid = Some(vec![b"pyright-langserver".to_vec()]);
    assert!(cfg.requires_patch_pid());

    cfg.patch_pid = Some(vec![b"clangd".to_vec()]);
    assert!(!cfg.requires_patch_pid());

    cfg.patch_pid = None;
    assert!(!cfg.requires_patch_pid());
}

#[test]
fn pattern_decides_docker_from_home_config() {
    let cp = resolve_config_path(b"/p/lspdock.toml".to_vec(), false, b"/h/lspdock.toml".to_vec(), true)
        .unwrap();
    assert!(matches!(cp.path_type, PathType::Home));
    assert_eq!(cp.path, b"/h/lspdock.toml".to_vec());

    let pattern = b"work/proj".to_vec();
    assert!(decide_use_docker(Some(&cp), b"/home/u/work/proj/sub", Some(&pattern)));
    assert!(!decide_use_docker(Some(&cp), b"/home/u/other", Some(&pattern)));
    assert!(decide_use_docker(None, b"/anywhere", Some(&pattern)));

    let cp = resolve_config_path(b"/p/lspdock.toml".to_vec(), true, b"/h/lspdock.toml".to_vec(), true)
        .unwrap();
    assert!(matches!(cp.path_type, PathType::Cwd));
    assert!(decide_use_docker(Some(&cp), b"/home/u/other", Some(&pattern)));

    assert!(resolve_config_path(b"/p".to_vec(), false, b"/h".to_vec(), false).is_none());
}

#[test]
fn pattern_match_normalizes_backslashes() {
    assert!(cwd_matches_pattern(b"C:\\Users\\u\\dev\\proj", Some(&b"Users/u/dev".to_vec())));
    assert!(cwd_matches_pattern(b"/any", None));
    assert!(cwd_matches_pattern(b"/any", Some(&b"".to_vec())));
    assert!(!cwd_matches_pattern(b"/somewhere", Some(&b"proj".to_vec())));
}

#[test]
fn known_flags_decide_passthrough() {
    assert!(first_arg_is_known_flag(b"--container"));
    assert!(first_arg_is_known_flag(b"--container=app"));
    assert!(first_arg_is_known_flag(b"-L/test"));
    assert!(!first_arg_is_known_flag(b"--stdio"));

    let cli = Cli::passthrough(vec![b"--stdio".to_vec()]);
    assert!(cli.container.is_none());
    assert_eq!(cli.args, vec![b"--stdio".to_vec()]);
}
