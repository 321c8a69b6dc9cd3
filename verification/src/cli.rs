//! The command line, and how the bouncer proves who it is to CrowdSec.
use crate::api_url::ApiUrl;
use crate::blacklist::IpRangeMixed;
use crate::config::Config;
use crate::crowdsec_lapi::CrowdsecAuth;
use crate::net::{addrs, lemma_networks_of, networks_of, IpNet};
use std::path::PathBuf;
use vstd::prelude::*;

verus! {

/// A path of the file system. Nothing is claimed of it: it is carried from the command line to
/// where the file is read.
#[verifier::external_type_specification]
#[verifier::external_body]
pub struct ExPathBuf(std::path::PathBuf);

/// How the bouncer passes the bans on.
#[derive(Clone, Copy, Debug, PartialEq, Eq, Structural)]
pub enum BouncerMode {
    /// It changes a firewall group through the API of the router.
    VyosApi,
    /// It serves a list that the router fetches.
    RemoteGroup,
}

/// The arguments of the bouncer.
pub struct Cli {
    pub mode: BouncerMode,
    pub trusted_ips: Option<Vec<IpNet>>,
    pub update_period_secs: u64,
    /// Periodically reconcile the whole VyOS group against CrowdSec active decisions. Set to 0 to
    /// disable.
    pub full_sync_interval_secs: u64,
    pub vyos_apikey: Option<String>,
    pub vyos_api: Option<ApiUrl>,
    pub crowdsec_timeout: u64,
    pub firewall_group: String,
    pub vyos_save_config: bool,
    pub crowdsec_api: ApiUrl,
    /// The socket address of the metrics.
    pub metrics_bind: String,
    /// The socket address of the list.
    pub remote_group_bind: String,
    pub remote_group_path: String,
    pub auth: Auth,
}

/// What is wrong with the arguments.
pub enum CliError {
    /// The key to the API of the router is missing.
    MissingVyosApikey,
    /// The URL of the router is missing.
    MissingVyosApi,
    /// The path of the list does not start with a slash.
    RelativeRemoteGroupPath(String),
}

impl CliError {
    /// The text of the error.
    pub open spec fn spec_message(self) -> Seq<char> {
        match self {
            CliError::MissingVyosApikey =>
                "--vyos-apikey or VYOS_APIKEY is required when --mode=vyos-api"@,
            CliError::MissingVyosApi => "--vyos-api or VYOS_API is required when --mode=vyos-api"@,
            CliError::RelativeRemoteGroupPath(path) =>
                "--remote-group-path must start with '/', got '"@ + path@ + "'"@,
        }
    }

    /// The text of the error.
    pub fn message(&self) -> (text: String)
        ensures
            text@ == self.spec_message(),
    {
        match self {
            CliError::MissingVyosApikey =>
                "--vyos-apikey or VYOS_APIKEY is required when --mode=vyos-api".to_owned(),
            CliError::MissingVyosApi =>
                "--vyos-api or VYOS_API is required when --mode=vyos-api".to_owned(),
            CliError::RelativeRemoteGroupPath(path) => {
                let mut text = "--remote-group-path must start with '/', got '".to_owned();
                text.append(path.as_str());
                text.append("'");
                text
            },
        }
    }
}

/// The number of nanoseconds in a second.
pub const NANOS_PER_SEC: u128 = 1_000_000_000;

/// The set of the trusted networks, which is empty if none are given.
pub fn trusted_range(trusted_ips: Option<Vec<IpNet>>) -> (range: IpRangeMixed)
    ensures
        range@ == networks_of(
            match trusted_ips {
                Some(nets) => addrs(nets@),
                None => Set::empty(),
            },
        ),
{
    match trusted_ips {
        Some(nets) => {
            let range = IpRangeMixed::from(nets);
            proof {
                lemma_networks_of(range@);
            }
            range
        },
        None => {
            let range = IpRangeMixed::default();
            proof {
                lemma_networks_of(range@);
                assert(addrs(range@) =~= Set::empty());
            }
            range
        },
    }
}

impl Cli {
    /// Checks the arguments: to change a firewall group, the bouncer needs the URL of the router and
    /// a key to it; and the path of the list is absolute.
    pub fn validate(&self) -> (outcome: Result<(), CliError>)
        ensures
            if self.mode is VyosApi && self.vyos_apikey is None {
                outcome matches Err(CliError::MissingVyosApikey)
            } else if self.mode is VyosApi && self.vyos_api is None {
                outcome matches Err(CliError::MissingVyosApi)
            } else if self.remote_group_path@.len() == 0 || self.remote_group_path@[0] != '/' {
                outcome matches Err(CliError::RelativeRemoteGroupPath(path)) && path@
                    == self.remote_group_path@
            } else {
                outcome is Ok
            },
    {
        if matches!(self.mode, BouncerMode::VyosApi) {
            if self.vyos_apikey.is_none() {
                return Err(CliError::MissingVyosApikey);
            }
            if self.vyos_api.is_none() {
                return Err(CliError::MissingVyosApi);
            }
        }
        let path = self.remote_group_path.as_str();
        if path.is_empty() || path.get_char(0) != '/' {
            return Err(CliError::RelativeRemoteGroupPath(path.to_owned()));
        }
        Ok(())
    }

    /// The settings under which a firewall group is kept in step.
    pub fn into_config(self) -> (config: Config)
        ensures
            config.firewall_group == self.firewall_group,
            config.trusted_ips@ == networks_of(
                match self.trusted_ips {
                    Some(nets) => addrs(nets@),
                    None => Set::empty(),
                },
            ),
            config.update_period_secs == self.update_period_secs,
            config.full_sync_interval == (if self.full_sync_interval_secs == 0 {
                None
            } else {
                Some((self.full_sync_interval_secs * NANOS_PER_SEC) as u128)
            }),
            config.vyos_save_config == self.vyos_save_config,
    {
        Config {
            firewall_group: self.firewall_group,
            trusted_ips: trusted_range(self.trusted_ips),
            update_period_secs: self.update_period_secs,
            full_sync_interval: if self.full_sync_interval_secs == 0 {
                None
            } else {
                Some(self.full_sync_interval_secs as u128 * NANOS_PER_SEC)
            },
            vyos_save_config: self.vyos_save_config,
        }
    }
}

/// The ways in which the bouncer may prove who it is.
#[derive(Debug)]
pub struct Auth {
    pub crowdsec_apikey: Option<String>,
    pub cert_auth: CertAuth,
}

/// Where the certificates and the key of the bouncer are.
#[derive(Debug)]
pub struct CertAuth {
    pub crowdsec_root_ca_cert: PathBuf,
    pub crowdsec_client_cert: PathBuf,
    pub crowdsec_client_key: PathBuf,
}

/// Which of the files are there.
#[derive(Clone, Copy, Debug, PartialEq, Eq, Structural)]
pub struct CertFiles {
    pub root_ca_cert: bool,
    pub client_cert: bool,
    pub client_key: bool,
}

impl CertFiles {
    /// Whether all of the files are there.
    pub fn all_exist(&self) -> (all: bool)
        ensures
            all == (self.root_ca_cert && self.client_cert && self.client_key),
    {
        self.client_key && self.client_cert && self.root_ca_cert
    }
}

/// The certificates and the key of the bouncer.
pub struct ClientCerts {
    pub ca_cert: Vec<u8>,
    pub client_cert: Vec<u8>,
    pub client_key: Vec<u8>,
}

impl ClientCerts {
    /// Puts together what was read from the three files; the first failure, if any, is the outcome.
    pub fn from_files<E>(
        ca_cert: Result<Vec<u8>, E>,
        client_cert: Result<Vec<u8>, E>,
        client_key: Result<Vec<u8>, E>,
    ) -> (certs: Result<ClientCerts, E>)
        ensures
            certs == match (ca_cert, client_cert, client_key) {
                (Err(e), _, _) => Err(e),
                (_, Err(e), _) => Err(e),
                (_, _, Err(e)) => Err(e),
                (Ok(ca_cert), Ok(client_cert), Ok(client_key)) => Ok::<ClientCerts, E>(
                    ClientCerts { ca_cert, client_cert, client_key },
                ),
            },
    {
        match (ca_cert, client_cert, client_key) {
            (Err(e), _, _) => Err(e),
            (_, Err(e), _) => Err(e),
            (_, _, Err(e)) => Err(e),
            (Ok(ca_cert), Ok(client_cert), Ok(client_key)) => Ok(
                ClientCerts { ca_cert, client_cert, client_key },
            ),
        }
    }
}

/// Why the bouncer cannot prove who it is.
pub enum AuthError {
    /// Certificates are of use only over TLS; the URL of CrowdSec.
    InsecureApi(String),
    /// Neither a key nor certificates are there.
    Missing,
}

impl AuthError {
    /// The text of the error.
    pub open spec fn spec_message(self) -> Seq<char> {
        match self {
            AuthError::InsecureApi(url) =>
                "CrowdSec certificate authentication requires an https:// CROWDSEC_API, got "@ + url@,
            AuthError::Missing => "No authentication provided for CrowdSec!"@,
        }
    }

    /// The text of the error.
    pub fn message(&self) -> (text: String)
        ensures
            text@ == self.spec_message(),
    {
        match self {
            AuthError::InsecureApi(url) => {
                let mut text =
                    "CrowdSec certificate authentication requires an https:// CROWDSEC_API, got ".to_owned();
                text.append(url.as_str());
                text
            },
            AuthError::Missing => "No authentication provided for CrowdSec!".to_owned(),
        }
    }
}

impl Auth {
    /// Decides how the bouncer proves who it is: with the key if there is one, otherwise with the
    /// certificates if all of them are there, which takes an `https` URL.
    pub fn try_into_crowdsec_auth(self, crowdsec_api: &ApiUrl, files: CertFiles) -> (auth: Result<
        CrowdsecAuth,
        AuthError,
    >)
        ensures
            match self.crowdsec_apikey {
                Some(apikey) => auth == Ok::<CrowdsecAuth, AuthError>(CrowdsecAuth::Apikey(apikey)),
                None => if !(files.root_ca_cert && files.client_cert && files.client_key) {
                    auth matches Err(AuthError::Missing)
                } else if crowdsec_api.spec_scheme() != "https"@ {
                    auth matches Err(AuthError::InsecureApi(url)) && url@ == crowdsec_api.spec_text()
                } else {
                    auth == Ok::<CrowdsecAuth, AuthError>(CrowdsecAuth::Certs(self.cert_auth))
                },
            },
    {
        if let Some(apikey) = self.crowdsec_apikey {
            Ok(CrowdsecAuth::Apikey(apikey))
        } else if files.all_exist() {
            let secure = crowdsec_api.scheme().to_owned() == "https".to_owned();
            if !secure {
                return Err(AuthError::InsecureApi(crowdsec_api.as_str().to_owned()));
            }
            Ok(CrowdsecAuth::Certs(self.cert_auth))
        } else {
            Err(AuthError::Missing)
        }
    }
}

/// The texts of errors say what is wrong, and carry what they are about.
pub proof fn lemma_error_texts(path: String, url: String)
    ensures
        CliError::MissingVyosApikey.spec_message()
            == "--vyos-apikey or VYOS_APIKEY is required when --mode=vyos-api"@,
        CliError::MissingVyosApi.spec_message()
            == "--vyos-api or VYOS_API is required when --mode=vyos-api"@,
        CliError::RelativeRemoteGroupPath(path).spec_message()
            == "--remote-group-path must start with '/', got '"@ + path@ + "'"@,
        AuthError::InsecureApi(url).spec_message()
            == "CrowdSec certificate authentication requires an https:// CROWDSEC_API, got "@ + url@,
        AuthError::Missing.spec_message() == "No authentication provided for CrowdSec!"@,
{
}

} // verus!
