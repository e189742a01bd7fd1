use bwenv::bitwarden::BitwardenClient;
use bwenv::cli::{CacheCommand, Command, InspectArgs, LogLevel};
use bwenv::data::Data;
use bwenv::error::{BwenvError, ConfigError, Error};
use bwenv::run::{get_program, resolve_profile_name, run_plan, RunPlan};

#[test]
fn profile_name_falls_back_to_default() {
    assert_eq!(resolve_profile_name(Some("other".to_string())), "other");
    assert_eq!(resolve_profile_name(None), "default");
}

#[test]
fn program_is_first_slop_word() {
    let slop = vec!["echo".to_string(), "-n".to_string(), "hi".to_string()];
    let (program, args) = get_program(&slop).unwrap();
    assert_eq!(program, "echo");
    assert_eq!(args, vec!["-n".to_string(), "hi".to_string()]);

    assert!(get_program(&Vec::new()).is_none());
}

#[test]
fn cache_commands_win_outright() {
    let slop = vec!["echo".to_string()];
    let plan = run_plan(&Some(Command::Cache(CacheCommand::Clear)), false, &slop);
    assert!(matches!(plan, RunPlan::ClearCache));
    let plan = run_plan(&Some(Command::Cache(CacheCommand::Invalidate)), false, &slop);
    assert!(matches!(plan, RunPlan::InvalidateCache));
}

#[test]
fn version_gate_stops_the_run() {
    let slop = vec!["echo".to_string()];
    let plan = run_plan(&None, false, &slop);
    assert!(matches!(plan, RunPlan::FailVersion));
    let plan = run_plan(&Some(Command::Inspect(InspectArgs { reveal: true })), false, &slop);
    assert!(matches!(plan, RunPlan::FailVersion));
}

#[test]
fn inspect_and_launch_and_no_program() {
    let slop = vec!["echo".to_string(), "test".to_string()];
    let plan = run_plan(&Some(Command::Inspect(InspectArgs { reveal: true })), true, &slop);
    assert!(matches!(plan, RunPlan::Inspect(true)));

    let plan = run_plan(&None, true, &slop);
    match plan {
        RunPlan::Launch(program, args) => {
            assert_eq!(program, "echo");
            assert_eq!(args, vec!["test".to_string()]);
        }
        other => panic!("expected a launch, got {:?}", other),
    }

    let plan = run_plan(&None, true, &Vec::new());
    assert!(matches!(plan, RunPlan::FailNoProgram));
}

#[test]
fn log_levels_name_their_filters() {
    assert_eq!(LogLevel::Error.as_tracing_env(), "error");
    assert_eq!(LogLevel::Warn.as_tracing_env(), "warn");
    assert_eq!(LogLevel::Info.as_tracing_env(), "info");
    assert_eq!(LogLevel::Debug.as_tracing_env(), "debug");
    assert_eq!(LogLevel::Trace.as_tracing_env(), "trace");
}

#[test]
fn client_settings_are_fixed() {
    let client = BitwardenClient::new("token-123".to_string());
    assert_eq!(client.identity_url, "https://identity.bitwarden.com");
    assert_eq!(client.api_url, "https://api.bitwarden.com");
    assert_eq!(client.user_agent, "Bitwarden Rust-SDK");
    assert_eq!(client.access_token, "token-123");
}

#[test]
fn data_content_records_the_check() {
    let mut data = Data::new("/tmp/data/bwenv.yaml".to_string());
    let fresh = data.get_content();
    assert_eq!(fresh.last_update_check, 0);
    assert!(fresh.last_checked_version.is_none());

    data.set_content(1_700_000_000_000, "1.2.3".to_string());
    let content = data.get_content();
    assert_eq!(content.last_update_check, 1_700_000_000_000);
    assert_eq!(content.last_checked_version.as_deref(), Some("1.2.3"));
}

#[test]
fn config_error_messages() {
    assert_eq!(ConfigError::Read.message(), "Error reading configuration file");
    assert_eq!(ConfigError::NotFound.message(), "Configuration file not found");
    assert_eq!(
        ConfigError::NoProfile.message(),
        "Profile not found in the configuration"
    );
    assert_eq!(ConfigError::Parse.message(), "Error parsing configuration file");
    assert_eq!(ConfigError::Invalid.message(), "Invalid configuration file");
    assert_eq!(
        BwenvError::Config(ConfigError::NoProfile),
        BwenvError::Config(ConfigError::NoProfile)
    );
    assert_ne!(Error::ProfileNotConfigured, Error::InvalidConfigurationFile);
}
