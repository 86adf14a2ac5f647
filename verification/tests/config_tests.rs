use stark::google::remote_config::{
    remote_config_endpoint, update_accepted, Config, ConfigError, Manager, RemoteConfigParameter,
    RemoteConfigParameters, RemoveConfigValue,
};
use stark::surgeon::{first_tunnel, on_agent, AgentAction, Tunnel, TunnelError, Tunnels};

fn config(value: &str) -> Config {
    Config {
        parameters: RemoteConfigParameters {
            firelink_endpoint: RemoteConfigParameter {
                default_value: RemoveConfigValue { value: value.to_string() },
            },
        },
    }
}

#[test]
fn manager_reads_patient_and_skeleton() {
    let manager = Manager::from_response(Some(config("https://t.io")), "{\n\t\"a\": 1\n}".to_string())
        .ok()
        .unwrap();
    assert_eq!(manager.get_patient(), "https://t.io");
    assert_eq!(manager.config.firelink_endpoint(), "https://t.io");
    assert_eq!(manager.get_skeleton(), "{\"a\": 1}");
}

#[test]
fn manager_refuses_undecodable_response() {
    assert!(matches!(
        Manager::from_response(None, "oops".to_string()),
        Err(ConfigError::Undecodable)
    ));
}

#[test]
fn endpoints_and_statuses() {
    assert_eq!(
        remote_config_endpoint("https://firebaseremoteconfig.googleapis.com"),
        "https://firebaseremoteconfig.googleapis.com/v1/projects/ebisu-mobile/remoteConfig"
    );
    assert!(update_accepted(Some(200)));
    assert!(update_accepted(Some(299)));
    assert!(!update_accepted(Some(300)));
    assert!(!update_accepted(Some(404)));
    assert!(!update_accepted(None));
}

#[test]
fn first_tunnel_of_report() {
    let report = Tunnels {
        tunnels: vec![
            Tunnel { public_url: "https://a.ngrok.io".to_string() },
            Tunnel { public_url: "https://b.ngrok.io".to_string() },
        ],
    };
    assert_eq!(first_tunnel(&report).ok().unwrap().public_url, "https://a.ngrok.io");
    assert!(matches!(
        first_tunnel(&Tunnels { tunnels: vec![] }),
        Err(TunnelError::NoActiveTunnel)
    ));
}

#[test]
fn agent_watch_decisions() {
    assert!(matches!(on_agent(true, true), AgentAction::Kill));
    assert!(matches!(on_agent(false, true), AgentAction::Exited));
    assert!(matches!(on_agent(false, false), AgentAction::Continue));
}
