use ironclaw::sandbox::{
    apply_landlock_ruleset, apply_sandbox, apply_seccomp_filter, build_bubblewrap_command,
    bubblewrap_args, ConfigError, SandboxConfig, SandboxError, DEFAULT_MARKET_DATA_PATH,
    DEFAULT_MAX_MEMORY_MB, DEFAULT_MAX_RUNTIME_SECONDS,
};

#[test]
fn test_sandbox_config_default() {
    let config = SandboxConfig::default();
    assert_eq!(config.max_memory_mb, DEFAULT_MAX_MEMORY_MB);
    assert_eq!(config.max_runtime_seconds, DEFAULT_MAX_RUNTIME_SECONDS);
    assert!(!config.network_enabled);
    assert!(!config.python_fallback_enabled);
    assert_eq!(config.allowed_paths.len(), 1);
    assert_eq!(config.allowed_paths[0], DEFAULT_MARKET_DATA_PATH);
}

#[test]
fn test_sandbox_config_new() {
    let config = SandboxConfig::new();
    assert_eq!(config.max_memory_mb, DEFAULT_MAX_MEMORY_MB);
    assert_eq!(config.max_runtime_seconds, DEFAULT_MAX_RUNTIME_SECONDS);
}

#[test]
fn test_sandbox_config_for_python_backtest() {
    let config = SandboxConfig::for_python_backtest();
    assert!(config.python_fallback_enabled);
    assert!(!config.network_enabled);
}

#[test]
fn test_sandbox_config_validation_success() {
    let config = SandboxConfig::default();
    assert!(config.validate().is_ok());
}

#[test]
fn test_sandbox_config_validation_memory_exceeds() {
    let config = SandboxConfig::default().with_memory_limit(1024);
    let result = config.validate();
    assert!(result.is_err());
    let err_msg = result.unwrap_err().message();
    assert!(err_msg.contains("Memory limit"));
    assert!(err_msg.contains("exceeds maximum allowed"));
}

#[test]
fn test_sandbox_config_validation_runtime_exceeds() {
    let config = SandboxConfig::default().with_runtime_limit(600);
    let result = config.validate();
    assert!(result.is_err());
    let err_msg = result.unwrap_err().message();
    assert!(err_msg.contains("Runtime limit"));
    assert!(err_msg.contains("exceeds maximum allowed"));
}

#[test]
fn test_sandbox_config_validation_empty_paths() {
    let mut config = SandboxConfig::default();
    config.allowed_paths.clear();
    let result = config.validate();
    assert!(result.is_err());
    assert!(result
        .unwrap_err()
        .message()
        .contains("At least one allowed path"));
}

#[test]
fn test_sandbox_config_builder_methods() {
    let config = SandboxConfig::new()
        .with_memory_limit(256)
        .with_runtime_limit(120)
        .with_allowed_path("/custom/path")
        .with_network_enabled(true)
        .with_python_fallback(true);

    assert_eq!(config.max_memory_mb, 256);
    assert_eq!(config.max_runtime_seconds, 120);
    assert_eq!(config.allowed_paths.len(), 2); // Default + custom
    assert!(config.network_enabled);
    assert!(config.python_fallback_enabled);
}

#[test]
fn test_sandbox_config_within_limits() {
    let config = SandboxConfig::new()
        .with_memory_limit(512)
        .with_runtime_limit(300);
    assert!(config.validate().is_ok());
}

#[test]
fn test_sandbox_config_boundary_values() {
    // Test exact boundary values
    let config = SandboxConfig::new()
        .with_memory_limit(512)
        .with_runtime_limit(300);
    assert!(config.validate().is_ok());

    // Test one over boundary
    let config = SandboxConfig::new().with_memory_limit(513);
    assert!(config.validate().is_err());

    let config = SandboxConfig::default().with_runtime_limit(301);
    assert!(config.validate().is_err());
}

#[test]
fn test_constants() {
    assert_eq!(DEFAULT_MAX_MEMORY_MB, 512);
    assert_eq!(DEFAULT_MAX_RUNTIME_SECONDS, 300);
    assert_eq!(DEFAULT_MARKET_DATA_PATH, "/data/market");
}

#[test]
fn test_apply_landlock_stub() {
    let config = SandboxConfig::default();
    // Should succeed but do nothing when no host enforcement is built in
    assert!(apply_landlock_ruleset(&config).is_ok());
}

#[test]
fn test_apply_seccomp_stub() {
    let config = SandboxConfig::default();
    // Should succeed but do nothing when no host enforcement is built in
    assert!(apply_seccomp_filter(&config).is_ok());
}

#[test]
fn test_build_bubblewrap_without_fallback_enabled() {
    let config = SandboxConfig::default(); // python_fallback_enabled = false
    let result = build_bubblewrap_command(&config, "/usr/bin/python3", "/tmp/test.py");
    assert!(result.is_err());
    assert!(result
        .unwrap_err()
        .message()
        .contains("Python fallback is not enabled"));
}

// ---------------------------------------------------------------------------
// Exact error values and texts
// ---------------------------------------------------------------------------

#[test]
fn validation_memory_error_carries_both_limits() {
    let err = SandboxConfig::default().with_memory_limit(1024).validate().unwrap_err();
    assert_eq!(err, ConfigError::MemoryLimitExceeded { limit_mb: 1024, max_mb: 512 });
    assert_eq!(err.message(), "Memory limit 1024 MB exceeds maximum allowed 512 MB");
}

#[test]
fn validation_runtime_error_text() {
    let err = SandboxConfig::default().with_runtime_limit(600).validate().unwrap_err();
    assert_eq!(err, ConfigError::RuntimeLimitExceeded { limit_seconds: 600, max_seconds: 300 });
    assert_eq!(
        err.message(),
        "Runtime limit 600 seconds exceeds maximum allowed 300 seconds"
    );
}

#[test]
fn validation_reports_memory_before_runtime_before_paths() {
    let mut config = SandboxConfig::default()
        .with_memory_limit(u64::MAX)
        .with_runtime_limit(u64::MAX);
    config.allowed_paths.clear();
    assert_eq!(
        config.validate(),
        Err(ConfigError::MemoryLimitExceeded { limit_mb: u64::MAX, max_mb: 512 })
    );
    assert_eq!(
        config.validate().unwrap_err().message(),
        "Memory limit 18446744073709551615 MB exceeds maximum allowed 512 MB"
    );
    let config = config.with_memory_limit(0);
    assert_eq!(
        config.validate(),
        Err(ConfigError::RuntimeLimitExceeded { limit_seconds: u64::MAX, max_seconds: 300 })
    );
    let config = config.with_runtime_limit(0);
    assert_eq!(config.validate(), Err(ConfigError::NoAllowedPaths));
    assert_eq!(
        config.validate().unwrap_err().message(),
        "At least one allowed path must be specified"
    );
}

#[test]
fn zero_limits_are_within_the_mandate() {
    let config = SandboxConfig::new().with_memory_limit(0).with_runtime_limit(0);
    assert_eq!(config.validate(), Ok(()));
}

#[test]
fn builder_keeps_default_path_first() {
    let config = SandboxConfig::new().with_allowed_path("/custom/path");
    assert_eq!(config.allowed_paths, vec!["/data/market".to_string(), "/custom/path".to_string()]);
    assert_eq!(config.max_memory_mb, 512);
    assert!(!config.network_enabled);
}

#[test]
fn apply_sandbox_follows_validation() {
    assert_eq!(apply_sandbox(&SandboxConfig::default()), Ok(()));
    let bad = SandboxConfig::default().with_memory_limit(513);
    let err = apply_sandbox(&bad).unwrap_err();
    assert_eq!(
        err,
        SandboxError::InvalidConfig(ConfigError::MemoryLimitExceeded { limit_mb: 513, max_mb: 512 })
    );
    assert_eq!(err.message(), "Sandbox configuration validation failed");
    let mut empty = SandboxConfig::default();
    empty.allowed_paths.clear();
    assert_eq!(
        apply_sandbox(&empty),
        Err(SandboxError::InvalidConfig(ConfigError::NoAllowedPaths))
    );
}

#[test]
fn sandbox_error_texts() {
    assert_eq!(
        SandboxError::PythonFallbackDisabled.message(),
        "Python fallback is not enabled in sandbox configuration"
    );
    assert_eq!(
        SandboxError::BubblewrapNotFound.message(),
        "bubblewrap (bwrap) not found in PATH. Install bubblewrap for Python sandboxing."
    );
}

// ---------------------------------------------------------------------------
// Bubblewrap arguments
// ---------------------------------------------------------------------------

fn strs(v: &[&str]) -> Vec<String> {
    v.iter().map(|s| s.to_string()).collect()
}

#[test]
fn bubblewrap_args_for_python_backtest() {
    let config = SandboxConfig::for_python_backtest().with_allowed_path("/missing");
    let args = bubblewrap_args(&config, &vec![true, false], "/usr/bin/python3", "/tmp/test.py");
    assert_eq!(
        args,
        strs(&[
            "--unshare-all",
            "--die-with-parent",
            "--cap-drop",
            "ALL",
            "--as-limit",
            "536870912",
            "--ro-bind",
            "/data/market",
            "/data/market",
            "--tmpfs",
            "/tmp",
            "--proc",
            "/proc",
            "--dev",
            "/dev",
            "--unshare-net",
            "--chdir",
            "/",
            "/usr/bin/python3",
            "/tmp/test.py",
        ])
    );
}

#[test]
fn bubblewrap_args_without_limit_or_network_isolation() {
    let config = SandboxConfig::for_python_backtest()
        .with_memory_limit(0)
        .with_network_enabled(true);
    let args = bubblewrap_args(&config, &vec![false], "python", "run.py");
    assert_eq!(
        args,
        strs(&[
            "--unshare-all",
            "--die-with-parent",
            "--cap-drop",
            "ALL",
            "--tmpfs",
            "/tmp",
            "--proc",
            "/proc",
            "--dev",
            "/dev",
            "--chdir",
            "/",
            "python",
            "run.py",
        ])
    );
}

#[test]
fn bubblewrap_args_memory_limit_in_bytes() {
    let config = SandboxConfig::for_python_backtest().with_memory_limit(1);
    let args = bubblewrap_args(&config, &vec![true], "p", "s");
    assert_eq!(args[4], "--as-limit");
    assert_eq!(args[5], "1048576");
}

#[test]
fn build_bubblewrap_command_when_enabled() {
    let config = SandboxConfig::for_python_backtest().with_allowed_path("/");
    match build_bubblewrap_command(&config, "/usr/bin/python3", "/tmp/test.py") {
        Ok(cmd) => {
            assert!(cmd.program == "bwrap" || cmd.program.ends_with("/bwrap"));
            assert_eq!(&cmd.args[..4], &strs(&["--unshare-all", "--die-with-parent", "--cap-drop", "ALL"])[..]);
            // "/" exists everywhere, so it is bound read-only.
            assert!(cmd.args.windows(3).any(|w| w[0] == "--ro-bind" && w[1] == "/" && w[2] == "/"));
            assert_eq!(cmd.args[cmd.args.len() - 2], "/usr/bin/python3");
            assert_eq!(cmd.args[cmd.args.len() - 1], "/tmp/test.py");
        }
        Err(e) => assert_eq!(e, SandboxError::BubblewrapNotFound),
    }
}

#[test]
fn build_bubblewrap_command_refuses_invalid_config() {
    let config = SandboxConfig::for_python_backtest().with_memory_limit(1024);
    let result = build_bubblewrap_command(&config, "/usr/bin/python3", "/tmp/test.py");
    assert_eq!(
        result.unwrap_err(),
        SandboxError::InvalidConfig(ConfigError::MemoryLimitExceeded { limit_mb: 1024, max_mb: 512 })
    );
    let mut empty = SandboxConfig::for_python_backtest();
    empty.allowed_paths.clear();
    assert_eq!(
        build_bubblewrap_command(&empty, "p", "s").unwrap_err(),
        SandboxError::InvalidConfig(ConfigError::NoAllowedPaths)
    );
}

#[test]
fn build_bubblewrap_command_fallback_checked_before_limits() {
    let config = SandboxConfig::default().with_memory_limit(1024);
    assert_eq!(
        build_bubblewrap_command(&config, "p", "s").unwrap_err(),
        SandboxError::PythonFallbackDisabled
    );
}
