use std::path::PathBuf;

use vyos_crowdsec_bouncer::api_url::ApiUrl;
use vyos_crowdsec_bouncer::cli::{
    trusted_range, Auth, AuthError, BouncerMode, CertAuth, CertFiles, Cli, CliError, ClientCerts,
};
use vyos_crowdsec_bouncer::crowdsec_lapi::CrowdsecAuth;
use vyos_crowdsec_bouncer::net::IpNet;

const PRESENT: CertFiles = CertFiles { root_ca_cert: true, client_cert: true, client_key: true };

fn cert_auth(dir: &str) -> CertAuth {
    CertAuth {
        crowdsec_root_ca_cert: PathBuf::from(format!("{dir}/ca.crt")),
        crowdsec_client_cert: PathBuf::from(format!("{dir}/tls.crt")),
        crowdsec_client_key: PathBuf::from(format!("{dir}/tls.key")),
    }
}

fn cli_for_mode(mode: BouncerMode) -> Cli {
    Cli {
        mode,
        trusted_ips: None,
        update_period_secs: 60,
        full_sync_interval_secs: 900,
        vyos_apikey: None,
        vyos_api: None,
        crowdsec_timeout: 10,
        firewall_group: String::from("CROWDSEC_BOUNCER"),
        vyos_save_config: false,
        crowdsec_api: ApiUrl::parse("http://localhost:8080").unwrap(),
        metrics_bind: String::from("127.0.0.1:3000"),
        remote_group_bind: String::from("0.0.0.0:8080"),
        remote_group_path: String::from("/crowdsec"),
        auth: Auth {
            crowdsec_apikey: Some(String::from("secret")),
            cert_auth: cert_auth("/missing"),
        },
    }
}

#[test]
fn uses_apikey_auth_when_provided() {
    let auth = Auth {
        crowdsec_apikey: Some(String::from("secret")),
        cert_auth: cert_auth("/certs"),
    };

    let crowdsec_auth = auth
        .try_into_crowdsec_auth(&ApiUrl::parse("http://localhost:8080").unwrap(), PRESENT)
        .ok()
        .expect("apikey auth should work");

    assert!(matches!(crowdsec_auth, CrowdsecAuth::Apikey(apikey) if apikey == "secret"));
}

#[test]
fn rejects_certificate_auth_over_http() {
    let auth = Auth { crowdsec_apikey: None, cert_auth: cert_auth("/certs") };

    let error = auth
        .try_into_crowdsec_auth(&ApiUrl::parse("http://localhost:8080").unwrap(), PRESENT)
        .err()
        .expect("http should reject certificate auth");

    assert!(error.message().contains("https:// CROWDSEC_API"));
    assert_eq!(
        error.message(),
        "CrowdSec certificate authentication requires an https:// CROWDSEC_API, got http://localhost:8080/"
    );
}

#[test]
fn accepts_certificate_auth_over_https() {
    let auth = Auth { crowdsec_apikey: None, cert_auth: cert_auth("/certs") };
    let api = ApiUrl::parse("HTTPS://crowdsec.example:8080").unwrap();

    let crowdsec_auth = auth.try_into_crowdsec_auth(&api, PRESENT).ok().unwrap();

    assert!(matches!(
        crowdsec_auth,
        CrowdsecAuth::Certs(certs) if certs.crowdsec_client_key == PathBuf::from("/certs/tls.key")
    ));
}

#[test]
fn needs_a_key_or_all_certificates() {
    for files in [
        CertFiles { root_ca_cert: false, ..PRESENT },
        CertFiles { client_cert: false, ..PRESENT },
        CertFiles { client_key: false, ..PRESENT },
    ] {
        let auth = Auth { crowdsec_apikey: None, cert_auth: cert_auth("/certs") };
        let api = ApiUrl::parse("https://localhost").unwrap();
        let error = auth.try_into_crowdsec_auth(&api, files).err().unwrap();
        assert!(matches!(error, AuthError::Missing));
        assert_eq!(error.message(), "No authentication provided for CrowdSec!");
    }
}

#[test]
fn remote_group_mode_does_not_require_vyos_credentials() {
    let cli = cli_for_mode(BouncerMode::RemoteGroup);

    assert!(cli.validate().is_ok(), "remote-group mode should validate");
}

#[test]
fn vyos_api_mode_requires_vyos_credentials() {
    let cli = cli_for_mode(BouncerMode::VyosApi);

    let error = cli.validate().err().expect("vyos-api mode needs credentials");

    assert!(error.message().contains("--vyos-apikey"));
    assert_eq!(
        error.message(),
        "--vyos-apikey or VYOS_APIKEY is required when --mode=vyos-api"
    );
}

#[test]
fn vyos_api_mode_requires_a_url() {
    let mut cli = cli_for_mode(BouncerMode::VyosApi);
    cli.vyos_apikey = Some(String::from("secret"));
    let error = cli.validate().err().unwrap();
    assert!(matches!(error, CliError::MissingVyosApi));
    assert_eq!(error.message(), "--vyos-api or VYOS_API is required when --mode=vyos-api");

    cli.vyos_api = ApiUrl::parse("https://router.example");
    assert!(cli.validate().is_ok());
}

#[test]
fn remote_group_path_must_start_with_slash() {
    let mut cli = cli_for_mode(BouncerMode::RemoteGroup);
    cli.remote_group_path = String::from("crowdsec");

    let error = cli.validate().err().expect("relative path should fail");

    assert!(error.message().contains("--remote-group-path"));
    assert_eq!(error.message(), "--remote-group-path must start with '/', got 'crowdsec'");

    cli.remote_group_path = String::new();
    assert_eq!(
        cli.validate().err().unwrap().message(),
        "--remote-group-path must start with '/', got ''"
    );
}

#[test]
fn settings_follow_the_arguments() {
    let mut cli = cli_for_mode(BouncerMode::VyosApi);
    cli.trusted_ips = Some(vec![IpNet::parse("10.0.0.1/8").unwrap()]);
    let config = cli.into_config();
    assert_eq!(config.firewall_group, "CROWDSEC_BOUNCER");
    assert_eq!(config.trusted_ips.into_nets(), vec![IpNet::parse("10.0.0.0/8").unwrap()]);
    assert_eq!(config.update_period_secs, 60);
    assert_eq!(config.full_sync_interval, Some(900_000_000_000));
    assert!(!config.vyos_save_config);

    let mut cli = cli_for_mode(BouncerMode::VyosApi);
    cli.full_sync_interval_secs = 0;
    assert_eq!(cli.into_config().full_sync_interval, None);
    assert!(trusted_range(None).is_empty());
}

#[test]
fn certificates_need_all_three_files() {
    let certs = ClientCerts::from_files::<&str>(Ok(vec![1]), Ok(vec![2]), Ok(vec![3])).unwrap();
    assert_eq!((certs.ca_cert, certs.client_cert, certs.client_key), (vec![1], vec![2], vec![3]));

    let first = ClientCerts::from_files(Err("ca"), Err("cert"), Ok(vec![3])).err();
    assert_eq!(first, Some("ca"));
    let second = ClientCerts::from_files(Ok(vec![1]), Err("cert"), Err("key")).err();
    assert_eq!(second, Some("cert"));
    let third = ClientCerts::from_files(Ok(vec![1]), Ok(vec![2]), Err("key")).err();
    assert_eq!(third, Some("key"));
}
