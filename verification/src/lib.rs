//! A CrowdSec bouncer for VyOS routers: the decisions it takes, without its input and output.

pub mod api_url;
pub mod blacklist;
pub mod canonical;
pub mod cli;
pub mod config;
pub mod control_loop;
pub mod crowdsec_lapi;
pub mod net;
pub mod remote_group;
pub mod text;
pub mod utils;
pub mod version;
pub mod vyos_api;
