use vyos_crowdsec_bouncer::blacklist::IpRangeMixed;
use vyos_crowdsec_bouncer::crowdsec_lapi::{Decision, DecisionsResponse, Scope};
use vyos_crowdsec_bouncer::net::IpNet;
use vyos_crowdsec_bouncer::remote_group::{
    format_blacklist, remote_group_feed, sync_loop, sync_once, sync_options, RemoteGroupApp,
    RemoteGroupState, SyncAction, SyncEvent, FEED_CONTENT_TYPE,
};

fn mock_decision(value: &str) -> Decision {
    let scope = if value.contains('/') { Scope::Range } else { Scope::Ip };
    Decision { value: String::from(value), scope }
}

fn mock_decisions(cidrs_new: &[&str]) -> DecisionsResponse {
    DecisionsResponse {
        new: Some(cidrs_new.iter().map(|value| mock_decision(value)).collect()),
        deleted: None,
    }
}

fn ipnets(values: &[&str]) -> Vec<IpNet> {
    values.iter().map(|value| IpNet::parse(value).unwrap()).collect()
}

#[test]
fn formats_remote_group_feed_as_newline_delimited_nets() {
    let blacklist = IpRangeMixed::from(ipnets(&["203.0.113.0/24", "2001:db8::/64"]));

    let actual = format_blacklist(&blacklist);

    assert!(actual.contains("203.0.113.0/24\n"));
    assert!(actual.contains("2001:db8::/64\n"));
}

#[test]
fn sync_once_stores_full_crowdsec_list_and_filters_trusted_ips() {
    let options = sync_options();
    let query = options.query();
    let expected = [
        ("startup", "true"),
        ("type", "ban"),
        ("origins", "crowdsec,lists,cscli"),
        ("scopes", "ip,range"),
        ("dedup", "false"),
    ];
    for (key, value) in expected {
        assert!(query.contains(&(String::from(key), String::from(value))));
    }
    let mut app = RemoteGroupApp::new(
        IpRangeMixed::from(ipnets(&["203.0.113.1/32"])),
        1,
        RemoteGroupState::default(),
    );

    let reply: Result<_, String> = Ok(mock_decisions(&["203.0.113.1", "198.51.100.0/24"]));
    sync_once(&mut app, reply).unwrap();

    assert!(app.state().is_ready());
    assert_eq!(app.state().blacklist().into_nets(), ipnets(&["198.51.100.0/24"]));
}

#[test]
fn feed_returns_503_before_first_successful_sync() {
    let state = RemoteGroupState::default();

    let response = remote_group_feed(&state);

    assert_eq!(response.status, 503);
    assert_eq!(response.content_type, "text/plain; charset=utf-8");
    assert_eq!(response.body, "CrowdSec blacklist has not synced yet\n");
}

#[test]
fn feed_lines_read_back_as_the_networks() {
    let nets = ipnets(&["10.0.0.0/8", "198.51.100.7/32", "::1/128", "2001:db8:0:1::/64"]);
    let blacklist = IpRangeMixed::from(nets);
    let text = format_blacklist(&blacklist);
    assert_eq!(text, "10.0.0.0/8\n198.51.100.7/32\n2001:db8:0:1::/64\n::1/128\n");
    let read: Vec<IpNet> = text.lines().map(|line| IpNet::parse(line).unwrap()).collect();
    assert_eq!(read, blacklist.into_nets());
    assert_eq!(format_blacklist(&IpRangeMixed::default()), "");
}

#[test]
fn failed_refresh_serves_the_last_list() {
    let mut app = RemoteGroupApp::new(IpRangeMixed::default(), 30, RemoteGroupState::default());
    assert_eq!(sync_once(&mut app, Err("unreachable")), Err("unreachable"));
    assert_eq!(remote_group_feed(app.state()).status, 503);

    let reply: Result<_, &str> = Ok(mock_decisions(&["192.0.2.1"]));
    assert!(matches!(sync_loop(&mut app, SyncEvent::Replied(reply)), SyncAction::Sleep(30)));
    let failure = SyncEvent::Replied(Err("unreachable"));
    assert!(matches!(sync_loop(&mut app, failure), SyncAction::Sleep(30)));
    let response = remote_group_feed(app.state());
    assert_eq!(response.status, 200);
    assert_eq!(response.body, "192.0.2.1/32\n");
    assert_eq!(response.content_type, "text/plain; charset=utf-8");
    assert_eq!(FEED_CONTENT_TYPE, "text/plain; charset=utf-8");

    let empty: Result<_, &str> = Ok(mock_decisions(&[]));
    sync_once(&mut app, empty).unwrap();
    let response = remote_group_feed(app.state());
    assert_eq!(response.status, 200);
    assert_eq!(response.content_type, "text/plain; charset=utf-8");
    assert_eq!(response.body, "");
}

#[test]
fn sync_loop_asks_for_all_active_decisions() {
    let mut app = RemoteGroupApp::new(IpRangeMixed::default(), 30, RemoteGroupState::default());
    match sync_loop::<String>(&mut app, SyncEvent::Awake) {
        SyncAction::Stream(options) => assert!(options.startup),
        SyncAction::Sleep(_) => panic!("a refresh was due"),
    }
    assert!(!app.state().is_ready());
}
