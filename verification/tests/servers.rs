use server_manager::config::ServerConfig;
use server_manager::health::{
    health_of_container, health_of_http, no_health_check_health, undefined_path_health,
    unknown_server_health, Health, HealthCheckMethod, HttpProbeOutcome,
};
use server_manager::server::{combine_output, probe_plan, ConfigServerRepository, ProbePlan, Server, StdLogReader};

fn config(
    name: &str,
    base_url: Option<&str>,
    container: Option<&str>,
    health_path: Option<&str>,
    kill_path: Option<&str>,
    log_command: Option<&str>,
) -> ServerConfig {
    ServerConfig::new(
        name.to_string(),
        base_url.map(|s| s.to_string()),
        container.map(|s| s.to_string()),
        health_path.map(|s| s.to_string()),
        kill_path.map(|s| s.to_string()),
        log_command.map(|s| s.to_string()),
    )
}

#[test]
fn server_from_selects_http_method() {
    let server = Server::from(config("api", Some("http://h:1"), None, Some("health"), None, None));
    assert!(matches!(server.health_check_method, HealthCheckMethod::Http(ref p) if p == "health"));
}

#[test]
fn server_from_selects_docker_method() {
    let server = Server::from(config("api", None, Some("api-container"), None, None, None));
    assert!(matches!(server.health_check_method, HealthCheckMethod::Docker));
}

#[test]
fn server_from_selects_no_method() {
    let server = Server::from(config("api", None, None, None, None, None));
    assert!(matches!(server.health_check_method, HealthCheckMethod::NoCheck));
}

#[test]
fn server_from_tokenizes_log_command() {
    let server = Server::from(config("api", None, None, None, None, Some("journalctl -u api")));
    assert_eq!(
        server.log_command,
        Some(vec!["journalctl".to_string(), "-u".to_string(), "api".to_string()])
    );
}

#[test]
fn health_check_url_joins_base_and_path() {
    let server = Server::from(config("api", Some("http://h:1"), None, Some("health"), None, None));
    assert_eq!(server.get_health_check_url(), Some("http://h:1/health".to_string()));
    let bare = Server::from(config("api", None, None, Some("health"), None, None));
    assert_eq!(bare.get_health_check_url(), None);
}

#[test]
fn kill_url_trims_leading_slashes() {
    let server = Server::from(config("api", Some("http://h:1"), None, None, Some("//kill"), None));
    assert_eq!(server.get_kill_url(), Some("http://h:1/kill".to_string()));
    let none = Server::from(config("api", Some("http://h:1"), None, None, None, None));
    assert_eq!(none.get_kill_url(), None);
}

#[test]
fn read_invocation_places_count_by_tool() {
    let reader = StdLogReader::new();
    let journal = Server::from(config("api", None, None, None, None, Some("journalctl -u api")));
    let (cmd, args) = reader.read_invocation(&journal, 100).unwrap();
    assert_eq!(cmd, "journalctl");
    assert_eq!(args, vec!["-n".to_string(), "100".to_string(), "-u".to_string(), "api".to_string()]);

    let docker = Server::from(config("api", None, None, None, None, Some("docker logs api")));
    let (cmd, args) = reader.read_invocation(&docker, 50).unwrap();
    assert_eq!(cmd, "docker");
    assert_eq!(args, vec!["logs".to_string(), "api".to_string(), "-n".to_string(), "50".to_string()]);

    let silent = Server::from(config("api", None, None, None, None, None));
    assert!(reader.read_invocation(&silent, 10).is_none());
}

#[test]
fn follow_invocation_places_flag_by_tool() {
    let reader = StdLogReader::new();
    let journal = Server::from(config("api", None, None, None, None, Some("journalctl -u api")));
    let (cmd, args) = reader.follow_invocation(&journal).unwrap();
    assert_eq!(cmd, "journalctl");
    assert_eq!(args, vec!["-f".to_string(), "-u".to_string(), "api".to_string()]);

    let docker = Server::from(config("api", None, None, None, None, Some("docker logs api")));
    let (cmd, args) = reader.follow_invocation(&docker).unwrap();
    assert_eq!(cmd, "docker");
    assert_eq!(args, vec!["logs".to_string(), "api".to_string(), "-f".to_string()]);
}

#[test]
fn repository_loads_and_finds_servers() {
    let mut repo = ConfigServerRepository::new();
    repo.load(vec![
        config("api", Some("http://h:1"), None, Some("health"), None, None),
        config("db", None, Some("db-container"), None, None, None),
    ]);
    assert!(repo.find("api").is_some());
    assert!(repo.find("db").is_some());
    assert!(repo.find("cache").is_none());
    assert_eq!(repo.find_all().len(), 2);
}

#[test]
fn repository_replaces_same_name_on_reload() {
    let mut repo = ConfigServerRepository::new();
    repo.load(vec![config("api", Some("http://old:1"), None, Some("health"), None, None)]);
    repo.load(vec![config("api", Some("http://new:2"), None, Some("health"), None, None)]);
    assert_eq!(repo.find_all().len(), 1);
    assert_eq!(
        repo.find("api").unwrap().get_health_check_url(),
        Some("http://new:2/health".to_string())
    );
}

#[test]
fn http_outcomes_classify_to_health() {
    assert!(matches!(health_of_http(&HttpProbeOutcome::Status(200)), Health::Healthy));
    assert!(matches!(health_of_http(&HttpProbeOutcome::Status(204)), Health::Healthy));
    assert!(matches!(health_of_http(&HttpProbeOutcome::Status(503)), Health::Unhealthy));
    assert!(matches!(health_of_http(&HttpProbeOutcome::Status(404)), Health::Degraded));
    assert!(matches!(health_of_http(&HttpProbeOutcome::Status(301)), Health::Degraded));
    assert!(matches!(health_of_http(&HttpProbeOutcome::Timeout), Health::Unhealthy));
    assert!(matches!(health_of_http(&HttpProbeOutcome::TransportError), Health::Down));
}

#[test]
fn container_states_classify_to_health() {
    assert!(matches!(health_of_container("running"), Health::Healthy));
    assert!(matches!(health_of_container("paused"), Health::Degraded));
    assert!(matches!(health_of_container("restarting"), Health::Unhealthy));
    assert!(matches!(health_of_container("removing"), Health::Deregistered));
    assert!(matches!(health_of_container("exited"), Health::Down));
    assert!(matches!(health_of_container("weird"), Health::Unknown(ref m) if m == "weird"));
}

#[test]
fn health_labels_are_the_fixed_names() {
    assert_eq!(Health::Healthy.label(), "Healthy");
    assert_eq!(Health::Unhealthy.label(), "Unhealthy");
    assert_eq!(Health::Deregistered.label(), "Deregistered (Draining)");
    assert_eq!(Health::Degraded.label(), "Degraded");
    assert_eq!(Health::Down.label(), "Down");
    assert_eq!(Health::Unknown("why".to_string()).label(), "why");
}

#[test]
fn fixed_health_notices() {
    assert!(matches!(
        unknown_server_health("ghost"),
        Health::Unknown(m) if m == "Fail to found server: 'ghost'"
    ));
    assert!(matches!(
        no_health_check_health(),
        Health::Unknown(m) if m == "Health check is not available"
    ));
    assert!(matches!(
        undefined_path_health(),
        Health::Unknown(m) if m == "Healthcheck path is undefined"
    ));
}

#[test]
fn combined_output_appends_an_error_section() {
    assert_eq!(combine_output("all good", ""), "all good");
    assert_eq!(combine_output("partial", "oops"), "partial\n--- Error ---\noops");
}

#[test]
fn probe_plans_follow_the_method() {
    let http = Server::from(config("api", Some("http://h:1"), None, Some("health"), None, None));
    assert!(matches!(probe_plan(&http), ProbePlan::Http(u) if u == "http://h:1/health"));
    let no_base = Server::from(config("api", None, None, Some("health"), None, None));
    assert!(matches!(probe_plan(&no_base), ProbePlan::PathUndefined));
    let docker = Server::from(config("api", None, Some("api-c"), None, None, None));
    assert!(matches!(probe_plan(&docker), ProbePlan::Docker(c) if c == "api-c"));
    let bare = Server::from(config("api", None, None, None, None, None));
    assert!(matches!(probe_plan(&bare), ProbePlan::Unavailable));
}

#[test]
fn later_config_wins_within_one_load() {
    let mut repo = ConfigServerRepository::new();
    repo.load(vec![
        config("api", Some("http://old:1"), None, Some("health"), None, None),
        config("api", Some("http://new:2"), None, Some("health"), None, None),
    ]);
    assert_eq!(repo.find_all().len(), 1);
    assert_eq!(
        repo.find("api").unwrap().get_health_check_url(),
        Some("http://new:2/health".to_string())
    );
}
