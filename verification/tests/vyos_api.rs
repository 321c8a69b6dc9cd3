use vyos_crowdsec_bouncer::api_url::ApiUrl;
use vyos_crowdsec_bouncer::blacklist::IpRangeMixed;
use vyos_crowdsec_bouncer::crowdsec_lapi::{DecisionsIpRange, DecisionsNets};
use vyos_crowdsec_bouncer::net::IpNet;
use vyos_crowdsec_bouncer::vyos_api::http::{
    check_command, check_status, describe_failure, judge_command, GroupQuery, GroupReply, HttpReply,
    VyosError, CONFIGURE_PATH, CONNECT_TIMEOUT_SECS, RETRIEVE_PATH,
};
use vyos_crowdsec_bouncer::vyos_api::{
    ipv4_group_exists, ipv4_group_get, ipv6_group_exists, ipv6_group_get, update_firewall,
    update_firewall_nets, FirewallRequest, FirewallUpdate, NetSet, VyosClient, VyosConfigOperation,
    VyosSaveCommand, BATCH_SIZE,
};

fn net(text: &str) -> IpNet {
    IpNet::parse(text).unwrap()
}

fn describe(request: Option<FirewallRequest<'_>>) -> Vec<String> {
    match request {
        None => vec![],
        Some(FirewallRequest::Save(_)) => vec![String::from("save")],
        Some(FirewallRequest::Configure(commands, _)) => commands
            .iter()
            .map(|c| format!("{} {}", c.op.name(), c.path.join(" ")))
            .collect(),
    }
}

#[test]
fn update_firewall_deletes_before_adding() {
    let decisions = DecisionsIpRange {
        new: IpRangeMixed::from(vec![net("203.0.113.1/32")]),
        deleted: IpRangeMixed::from(vec![net("127.0.0.1/32")]),
    };

    let update = update_firewall(&decisions, "group", Some(1), false);

    assert_eq!(
        describe(update.request()),
        vec![
            "delete firewall group network-group group network 127.0.0.1/32",
            "set firewall group network-group group network 203.0.113.1/32",
        ]
    );
    assert!(matches!(update.request(), Some(FirewallRequest::Configure(_, Some(1)))));
    assert!(update.acknowledge().request().is_none());
}

#[test]
fn every_request_has_the_timeout() {
    let nets = || DecisionsNets { new: vec![net("203.0.113.1/32")], deleted: vec![] };
    for timeout in [None, Some(0), Some(300)] {
        let update = update_firewall_nets(&nets(), "group", timeout, true);
        assert!(matches!(
            update.request(),
            Some(FirewallRequest::Configure(commands, t)) if commands.len() == 1 && t == timeout
        ));
        let update = update.acknowledge();
        assert!(matches!(update.request(), Some(FirewallRequest::Save(t)) if t == timeout));
        let update = FirewallUpdate::without_commands(true, timeout);
        assert!(matches!(update.request(), Some(FirewallRequest::Save(t)) if t == timeout));
    }
}

#[test]
fn each_batch_is_followed_by_a_save() {
    let new: Vec<IpNet> = (0..BATCH_SIZE + 1)
        .map(|i| net(&format!("10.{}.{}.1/32", i / 256, i % 256)))
        .collect();
    let nets = DecisionsNets { new, deleted: vec![] };

    let update = update_firewall_nets(&nets, "group", None, true);
    assert_eq!(describe(update.request()).len(), BATCH_SIZE);
    let update = update.acknowledge();
    assert_eq!(describe(update.request()), vec!["save"]);
    let update = update.acknowledge();
    assert_eq!(
        describe(update.request()),
        vec!["set firewall group network-group group network 10.58.152.1/32"]
    );
    let update = update.acknowledge();
    assert_eq!(describe(update.request()), vec!["save"]);
    let update = update.acknowledge();
    assert!(update.request().is_none());
    assert!(update.acknowledge().request().is_none());
}

#[test]
fn an_update_may_only_save() {
    let update = FirewallUpdate::without_commands(true, None);
    assert_eq!(describe(update.request()), vec!["save"]);
    assert!(update.acknowledge().request().is_none());
    assert!(FirewallUpdate::without_commands(false, None).request().is_none());
}

#[test]
fn entries_of_each_family_have_their_group() {
    let nets = vec![net("2001:db8::/32"), net("192.0.2.0/24")];
    let commands = NetSet(&nets).into_vyos_commands(VyosConfigOperation::DeleteEntry, "BAD");
    assert_eq!(commands[0].op.name(), "delete");
    assert_eq!(
        commands[0].path,
        vec!["firewall", "group", "ipv6-network-group", "BAD", "network", "2001:db8::/32"]
    );
    assert_eq!(
        commands[1].path,
        vec!["firewall", "group", "network-group", "BAD", "network", "192.0.2.0/24"]
    );
    assert_eq!(VyosSaveCommand::default().op, "save");
}

#[test]
fn queries_name_group_and_family() {
    let v4 = vec!["firewall", "group", "network-group", "BAD", "network"];
    let v6 = vec!["firewall", "group", "ipv6-network-group", "BAD", "network"];
    assert_eq!(ipv4_group_exists("BAD").op.name(), "exists");
    assert_eq!(ipv4_group_exists("BAD").path, v4);
    assert_eq!(ipv4_group_get("BAD").op.name(), "returnValues");
    assert_eq!(ipv4_group_get("BAD").path, v4);
    assert_eq!(ipv6_group_exists("BAD").op.name(), "exists");
    assert_eq!(ipv6_group_exists("BAD").path, v6);
    assert_eq!(ipv6_group_get("BAD").op.name(), "returnValues");
    assert_eq!(ipv6_group_get("BAD").path, v6);
}

#[test]
fn a_group_is_read_family_by_family() {
    let query = GroupQuery::new("BAD");
    assert_eq!(query.request().unwrap().path[2], "network-group");
    let query = query.reply(GroupReply::Values(vec![net("10.0.0.0/8")]));
    assert_eq!(query.request().unwrap().op.name(), "exists");
    let query = query.reply(GroupReply::Exists(true));
    assert_eq!(query.request().unwrap().op.name(), "returnValues");
    let query = query.reply(GroupReply::Values(vec![net("192.0.2.1/32"), net("10.0.0.0/8")]));
    assert_eq!(query.request().unwrap().path[2], "ipv6-network-group");
    let query = query.reply(GroupReply::Exists(true));
    let query = query.reply(GroupReply::Values(vec![net("2001:db8::/32")]));
    assert!(query.request().is_none());
    let response = query.into_response();
    assert!(response.success);
    assert_eq!(response.error, None);
    assert_eq!(response.data, vec![net("192.0.2.1/32"), net("10.0.0.0/8"), net("2001:db8::/32")]);
}

fn reply(status: u16, allow: Option<&str>, body: &str) -> HttpReply {
    HttpReply { status, allow: allow.map(String::from), body: String::from(body) }
}

fn failure(status: u16, allow: Option<&str>, body: &str) -> String {
    check_status("/configure", &reply(status, allow, body)).err().unwrap().message()
}

#[test]
fn error_statuses_are_described() {
    assert!(check_status("/configure", &reply(200, None, "")).is_ok());
    assert!(check_status("/configure", &reply(302, None, "")).is_ok());
    assert!(check_status("/configure", &reply(399, None, "")).is_ok());
    assert!(check_status("/configure", &reply(600, None, "")).is_ok());
    assert_eq!(
        failure(405, Some("POST"), "no"),
        "VyOS API request to /configure failed with status 405 Method Not Allowed, allow=POST, body=no"
    );
    assert_eq!(
        failure(502, None, ""),
        "VyOS API request to /configure failed with status 502 Bad Gateway"
    );
    assert_eq!(
        failure(599, None, ""),
        "VyOS API request to /configure failed with status 599 <unknown status code>"
    );
}

#[test]
fn a_bad_request_is_described_by_its_body() {
    assert_eq!(
        failure(400, Some("POST"), "{\"success\": false,\n \"error\": \"no group\"}"),
        "{\"error\":\"no group\",\"success\":false}"
    );
    assert_eq!(failure(400, None, "not json"), "not json");
    let error = describe_failure("/x", &reply(400, None, "raw"), "", Some(String::from("compact")));
    assert!(matches!(error, VyosError::BadRequest(detail) if detail == "compact"));
}

#[test]
fn commands_fail_if_the_reply_says_so() {
    let check = |body: &str| check_command(CONFIGURE_PATH, body.as_bytes());
    assert!(check(r#"{"success": true, "data": [], "error": null}"#).is_ok());
    assert!(check("[]").is_ok());
    assert!(check(r#"{"success": "no"}"#).is_ok());
    assert_eq!(
        check(r#"{"success": false, "error": "commit failed"}"#).err().unwrap().message(),
        "VyOS API request to /configure did not succeed: commit failed"
    );
    assert_eq!(
        check(r#"{"success": false, "error": null}"#).err().unwrap().message(),
        "VyOS API request to /configure did not succeed"
    );
    assert_eq!(
        check("<html>").err().unwrap().message(),
        "VyOS API reply to /configure is not JSON"
    );
    assert!(judge_command("/x", Some(Some(true)), None).is_ok());
    assert!(matches!(judge_command("/x", None, None), Err(VyosError::InvalidReply(_))));
    assert!(matches!(
        judge_command("/x", Some(Some(false)), None),
        Err(VyosError::Rejected(_, None))
    ));
}

#[test]
fn requests_carry_key_and_data() {
    let host = ApiUrl::parse("https://router.example/base/").unwrap();
    let client = VyosClient::new(host, String::from("secret"));
    let request = client.prepare(RETRIEVE_PATH, String::from("{}"), None).unwrap();
    assert_eq!(request.url, "https://router.example/retrieve");
    assert_eq!(
        request.fields,
        vec![
            (String::from("key"), String::from("secret")),
            (String::from("data"), String::from("{}")),
        ]
    );
    assert_eq!(request.timeout_secs, 30);
    let request = client.prepare(CONFIGURE_PATH, String::new(), Some(300)).unwrap();
    assert_eq!(request.timeout_secs, 300);
    assert_eq!(CONNECT_TIMEOUT_SECS, 5);

    let mail = ApiUrl::parse("mailto:admin@example.org").unwrap();
    assert!(VyosClient::new(mail, String::new()).url("/configure").is_none());
}
