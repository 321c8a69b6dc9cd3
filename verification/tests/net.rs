use vyos_crowdsec_bouncer::api_url::ApiUrl;
use vyos_crowdsec_bouncer::blacklist::IpRangeMixed;
use vyos_crowdsec_bouncer::net::IpNet;

fn net(text: &str) -> IpNet {
    IpNet::parse(text).unwrap()
}

fn range(values: &[&str]) -> IpRangeMixed {
    IpRangeMixed::from(values.iter().map(|value| net(value)).collect())
}

fn texts(range: &IpRangeMixed) -> Vec<String> {
    range.into_nets().iter().map(|n| n.to_string()).collect()
}

#[test]
fn networks_are_read_and_written() {
    for text in ["0.0.0.0/0", "10.1.2.3/8", "255.255.255.255/32", "::/0", "2001:db8::1/64", "::ffff:1.2.3.4/96"] {
        assert_eq!(net(text).to_string(), text);
    }
    assert_eq!(net("2001:DB8:0:0::/32").to_string(), "2001:db8::/32");
    assert_eq!(IpNet::parse("10.0.0.0"), None);
    assert_eq!(IpNet::parse("10.0.0.0/33"), None);
    assert_eq!(IpNet::parse("::/129"), None);
    assert_eq!(IpNet::parse(""), None);
    assert!(net("::/0").is_ipv6());
    assert!(!net("0.0.0.0/0").is_ipv6());
}

#[test]
fn hosts_are_networks_of_one_address() {
    assert_eq!(IpNet::parse_host("192.0.2.1"), Some(net("192.0.2.1/32")));
    assert_eq!(IpNet::parse_host("::1"), Some(net("::1/128")));
    assert_eq!(IpNet::parse_host("192.0.2.1/32"), None);
    assert_eq!(IpNet::parse_host("localhost"), None);
}

#[test]
fn networks_are_ordered_by_family_prefix_and_address() {
    assert!(net("255.0.0.0/8").is_before(&net("::/0")));
    assert!(net("255.0.0.0/8").is_before(&net("10.0.0.0/9")));
    assert!(net("10.0.0.0/8").is_before(&net("11.0.0.0/8")));
    assert!(!net("10.0.0.0/8").is_before(&net("10.0.0.0/8")));
    assert!(!net("::/0").is_before(&net("10.0.0.0/8")));
}

#[test]
fn bits_beyond_the_prefix_tell_networks_apart() {
    assert_ne!(net("10.0.0.1/8"), net("10.0.0.0/8"));
    assert_eq!(texts(&range(&["10.0.0.1/8"])), vec!["10.0.0.0/8"]);
}

#[test]
fn adjacent_networks_are_joined() {
    let joined = IpRangeMixed::from(vec![net("127.0.0.2/32"), net("127.0.0.3/32")]);
    assert_eq!(joined.into_nets(), vec![net("127.0.0.2/31")]);
    assert_eq!(texts(&range(&["127.0.0.1/32", "127.0.0.2/32"])).len(), 2);
    assert_eq!(texts(&range(&["0.0.0.0/1", "128.0.0.0/1"])), vec!["0.0.0.0/0"]);
}

#[test]
fn lists_are_simple_and_in_order() {
    let mixed = range(&[
        "2001:db8::/64",
        "10.0.0.7/32",
        "192.0.2.0/24",
        "10.0.0.0/24",
        "2001:db8:0:1::/64",
        "10.0.0.0/24",
    ]);
    assert_eq!(texts(&mixed), vec!["10.0.0.0/24", "192.0.2.0/24", "2001:db8::/63"]);
    assert_eq!(mixed.net_count(), 3);
    assert!(!mixed.is_empty());
    assert!(IpRangeMixed::default().is_empty());
    assert!(range(&[]).is_empty());
}

#[test]
fn equal_sets_have_equal_lists() {
    let whole = range(&["192.0.2.0/30"]);
    let parts = range(&["192.0.2.3/32", "192.0.2.0/31", "192.0.2.2/32"]);
    assert_eq!(whole.into_nets(), parts.into_nets());
}

#[test]
fn sets_are_merged_intersected_and_excluded() {
    let a = range(&["10.0.0.0/24", "2001:db8::/127"]);
    let b = range(&["10.0.0.128/25", "10.0.1.0/24", "2001:db8::1/128"]);
    assert_eq!(texts(&a.merge(&b)), vec!["10.0.0.0/23", "2001:db8::/127"]);
    assert_eq!(texts(&a.intersect(&b)), vec!["10.0.0.128/25", "2001:db8::1/128"]);
    assert_eq!(texts(&a.exclude(&b)), vec!["10.0.0.0/25", "2001:db8::/128"]);
    assert!(a.exclude(&a).is_empty());
    assert_eq!(texts(&a.exclude(&range(&["10.0.0.5/32"])).intersect(&range(&["10.0.0.0/29"]))), vec![
        "10.0.0.0/30",
        "10.0.0.6/31",
        "10.0.0.4/32",
    ]);
}

#[test]
fn urls_are_read_and_joined() {
    let url = ApiUrl::parse("HTTP://LocalHost:8080").unwrap();
    assert_eq!(url.as_str(), "http://localhost:8080/");
    assert_eq!(url.scheme(), "http");
    assert_eq!(url.join("/v1/decisions/stream").unwrap(), "http://localhost:8080/v1/decisions/stream");
    assert_eq!(url.copy().as_str(), url.as_str());
    assert!(ApiUrl::parse("localhost").is_none());
    assert!(ApiUrl::parse("mailto:a@b").unwrap().join("/x").is_none());
}
